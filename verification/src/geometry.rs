//! Rectangles on the cell grid, and how the preview pane is cut up.

use vstd::prelude::*;

verus! {

/// A rectangle of terminal cells: its top-left corner and its size.
#[derive(Debug, Clone, Copy, PartialEq, Eq, Structural)]
pub struct Rect {
    pub x: u16,
    pub y: u16,
    pub width: u16,
    pub height: u16,
}

/// `a + b`, held at the largest `u16`.
pub open spec fn capped_sum(a: int, b: int) -> int {
    if a + b > u16::MAX {
        u16::MAX as int
    } else {
        a + b
    }
}

/// `a - b`, held at zero.
pub open spec fn floored_difference(a: int, b: int) -> int {
    if a < b {
        0
    } else {
        a - b
    }
}

/// The smaller of `a` and `b`.
pub open spec fn least(a: int, b: int) -> int {
    if a <= b {
        a
    } else {
        b
    }
}

/// The larger of `a` and `b`.
pub open spec fn greatest(a: int, b: int) -> int {
    if a >= b {
        a
    } else {
        b
    }
}

impl Rect {
    /// The rectangle without any cell, at the origin.
    #[verifier::allow_in_spec]
    pub fn none() -> Rect
        returns
            (Rect { x: 0, y: 0, width: 0, height: 0 }),
    {
        Rect { x: 0, y: 0, width: 0, height: 0 }
    }

    /// The cells of the rectangle: a column from `x` up to `x + width` and a row
    /// from `y` up to `y + height`, both ends held to the grid.
    pub open spec fn holds(self, col: int, row: int) -> bool {
        &&& self.x <= col < capped_sum(self.x as int, self.width as int)
        &&& self.y <= row < capped_sum(self.y as int, self.height as int)
    }

    /// Whether the cell at `(col, row)` lies in the rectangle.
    pub fn contains(&self, col: u16, row: u16) -> (inside: bool)
        ensures
            inside == self.holds(col as int, row as int),
    {
        col >= self.x && col < self.x.saturating_add(self.width) && row >= self.y && row
            < self.y.saturating_add(self.height)
    }
}

/// Rows that the pinned status banner takes at the top of the preview pane: the
/// banner is a single line that never wraps.
pub const PREVIEW_BANNER_ROWS: u16 = 1;

/// The fewest text rows that the compose box shows.
pub const COMPOSE_MIN_TEXT_ROWS: u16 = 1;

/// The most text rows that the compose box shows before it scrolls.
pub const COMPOSE_MAX_TEXT_ROWS: u16 = 6;

/// The tallest compose zone: the most text rows and two borders.
pub const COMPOSE_MAX_ZONE_HEIGHT: u16 = COMPOSE_MAX_TEXT_ROWS + 2;

/// Transcript rows kept visible above a docked compose zone.
pub const COMPOSE_MIN_TRANSCRIPT_ROWS: u16 = 3;

/// The least inner height of the preview pane at which the compose zone docks in
/// it: the banner, the kept transcript rows and the tallest compose zone.
pub const COMPOSE_MIN_DOCK_HEIGHT: u16 = PREVIEW_BANNER_ROWS + COMPOSE_MIN_TRANSCRIPT_ROWS
    + COMPOSE_MAX_ZONE_HEIGHT;

/// Board rows outside the body: the header, the search line and the help line.
pub const BOARD_CHROME_ROWS: u16 = 3;

/// The pane inside a border of one cell on each side.
pub open spec fn inner_of(area: Rect) -> Rect {
    Rect {
        x: capped_sum(area.x as int, 1) as u16,
        y: capped_sum(area.y as int, 1) as u16,
        width: floored_difference(area.width as int, 2) as u16,
        height: floored_difference(area.height as int, 2) as u16,
    }
}

/// The preview pane's inner rectangle, inside its border.
pub fn preview_inner(area: Rect) -> (inner: Rect)
    ensures
        inner == inner_of(area),
{
    Rect {
        x: area.x.saturating_add(1),
        y: area.y.saturating_add(1),
        width: area.width.saturating_sub(2),
        height: area.height.saturating_sub(2),
    }
}

/// What a border on all four sides leaves of `area`. The corner stays within the
/// area.
pub open spec fn framed(area: Rect) -> Rect {
    Rect {
        x: least(capped_sum(area.x as int, 1), capped_sum(area.x as int, area.width as int)) as u16,
        y: least(
            capped_sum(area.y as int, 1),
            capped_sum(area.y as int, area.height as int),
        ) as u16,
        width: floored_difference(area.width as int, 2) as u16,
        height: floored_difference(area.height as int, 2) as u16,
    }
}

/// `ratatui::widgets::Block::inner`, of a block with a border on all four sides:
/// what the border leaves of the area. A title in the border changes nothing.
#[verifier::external_body]
pub(crate) fn frame_inner(area: Rect) -> (inner: Rect)
    ensures
        inner == framed(area),
{
    let outer = ratatui::layout::Rect { x: area.x, y: area.y, width: area.width, height: area.height };
    let inner = ratatui::widgets::Block::bordered().inner(outer);
    Rect { x: inner.x, y: inner.y, width: inner.width, height: inner.height }
}

/// The preview pane's inner rectangle is what its border leaves, wherever the
/// pane has a cell and lies on the grid.
pub proof fn lemma_the_pane_is_cut_inside_its_border(area: Rect)
    requires
        area.width > 0,
        area.height > 0,
        on_grid(area),
    ensures
        inner_of(area) == framed(area),
{
}

/// Cut `rows` rows (or all, where there are fewer) off the top of `area`.
pub open spec fn top_rows(area: Rect, rows: int) -> (Rect, Rect) {
    let taken = least(area.height as int, rows);
    (
        Rect { height: taken as u16, ..area },
        Rect {
            y: capped_sum(area.y as int, taken) as u16,
            height: (area.height - taken) as u16,
            ..area
        },
    )
}

/// The banner row and the transcript of a pane: the whole inner rectangle is the
/// transcript where there is no banner.
pub open spec fn banner_split(area: Rect, has_banner: bool) -> (Rect, Rect) {
    if has_banner {
        top_rows(inner_of(area), PREVIEW_BANNER_ROWS as int)
    } else {
        (Rect::none(), inner_of(area))
    }
}

/// Split the preview pane into its banner and its transcript.
pub fn preview_split(area: Rect, has_banner: bool) -> (split: (Rect, Rect))
    ensures
        split == banner_split(area, has_banner),
{
    let inner = preview_inner(area);
    if !has_banner {
        return (Rect::none(), inner);
    }
    let banner_h: u16 = if inner.height < PREVIEW_BANNER_ROWS {
        inner.height
    } else {
        PREVIEW_BANNER_ROWS
    };
    let banner = Rect { x: inner.x, y: inner.y, width: inner.width, height: banner_h };
    let transcript = Rect {
        x: inner.x,
        y: inner.y.saturating_add(banner_h),
        width: inner.width,
        height: inner.height.saturating_sub(banner_h),
    };
    (banner, transcript)
}

/// The banner, the transcript and the docked compose zone of a pane. The zone
/// takes the bottom rows of the transcript; a height of zero docks nothing.
pub open spec fn compose_split(area: Rect, has_banner: bool, compose_height: int) -> (
    Rect,
    Rect,
    Rect,
) {
    let (banner, transcript) = banner_split(area, has_banner);
    if compose_height == 0 {
        (banner, transcript, Rect::none())
    } else {
        let taken = least(transcript.height as int, compose_height);
        let kept = transcript.height - taken;
        (
            banner,
            Rect { height: kept as u16, ..transcript },
            Rect {
                y: capped_sum(transcript.y as int, kept) as u16,
                height: taken as u16,
                ..transcript
            },
        )
    }
}

/// Split the preview pane into its banner, its transcript and its compose zone.
pub fn preview_compose_split(area: Rect, has_banner: bool, compose_height: u16) -> (split: (
    Rect,
    Rect,
    Rect,
))
    ensures
        split == compose_split(area, has_banner, compose_height as int),
{
    let (banner, transcript) = preview_split(area, has_banner);
    if compose_height == 0 {
        return (banner, transcript, Rect::none());
    }
    let compose_h: u16 = if transcript.height < compose_height {
        transcript.height
    } else {
        compose_height
    };
    let shrunk = Rect {
        x: transcript.x,
        y: transcript.y,
        width: transcript.width,
        height: transcript.height.saturating_sub(compose_h),
    };
    let compose = Rect {
        x: transcript.x,
        y: shrunk.y.saturating_add(shrunk.height),
        width: transcript.width,
        height: compose_h,
    };
    (banner, shrunk, compose)
}

/// The parts of a preview pane never overlap and never leave a gap: the banner,
/// the transcript and the compose zone stack from the top of the inner rectangle
/// to its bottom, each at the full inner width, on every pane that fits the grid.
pub proof fn lemma_preview_parts_tile_the_pane(
    area: Rect,
    has_banner: bool,
    compose_height: u16,
)
    requires
        area.y + area.height <= u16::MAX,
    ensures
        ({
            let inner = inner_of(area);
            let (banner, transcript, compose) = compose_split(
                area,
                has_banner,
                compose_height as int,
            );
            &&& banner.height + transcript.height + compose.height == inner.height
            &&& transcript.x == inner.x && transcript.width == inner.width
            &&& has_banner ==> banner.x == inner.x && banner.y == inner.y && banner.width
                == inner.width
            &&& inner.height > 0 ==> transcript.y == inner.y + banner.height
            &&& compose_height > 0 && inner.height > 0 ==> compose.y == transcript.y
                + transcript.height && compose.width == inner.width
        }),
{
}

/// Docking nothing leaves the pane as the banner split cuts it.
pub proof fn lemma_no_compose_is_the_banner_split(area: Rect, has_banner: bool)
    ensures
        compose_split(area, has_banner, 0).0 == banner_split(area, has_banner).0,
        compose_split(area, has_banner, 0).1 == banner_split(area, has_banner).1,
        compose_split(area, has_banner, 0).2 == Rect::none(),
{
}

/// The preview pane's inner height on a board of `board_height` rows: the body is
/// the board without its chrome rows, and the pane has two borders.
pub open spec fn pane_inner_height(board_height: int) -> int {
    floored_difference(floored_difference(board_height, BOARD_CHROME_ROWS as int), 2)
}

/// The preview pane's inner height on a board of `board_height` rows.
pub fn preview_pane_inner_height(board_height: u16) -> (height: u16)
    ensures
        height == pane_inner_height(board_height as int),
{
    board_height.saturating_sub(BOARD_CHROME_ROWS).saturating_sub(2)
}

/// Whether composing takes a bar of its own below the body: only on a board too
/// short to dock the compose zone in the preview pane.
pub fn compose_uses_bottom_bar(composing: bool, board_height: u16) -> (bar: bool)
    ensures
        bar == (composing && pane_inner_height(board_height as int) < COMPOSE_MIN_DOCK_HEIGHT),
{
    composing && preview_pane_inner_height(board_height) < COMPOSE_MIN_DOCK_HEIGHT
}

/// The box of at most `width` by `height` cells in the middle of `area`, shrunk
/// where `area` is smaller.
pub open spec fn centered(area: Rect, width: u16, height: u16) -> Rect {
    let w = least(width as int, area.width as int);
    let h = least(height as int, area.height as int);
    Rect {
        x: (area.x + (area.width - w) / 2) as u16,
        y: (area.y + (area.height - h) / 2) as u16,
        width: w as u16,
        height: h as u16,
    }
}

/// Whether the middle of `area` lies on the grid.
pub open spec fn center_fits(area: Rect, width: u16, height: u16) -> bool {
    &&& area.x + (area.width - least(width as int, area.width as int)) / 2 <= u16::MAX
    &&& area.y + (area.height - least(height as int, area.height as int)) / 2 <= u16::MAX
}

/// Center a box of `width` by `height` cells in `area`.
pub fn centered_rect(area: Rect, width: u16, height: u16) -> (rect: Rect)
    requires
        center_fits(area, width, height),
    ensures
        rect == centered(area, width, height),
{
    let w: u16 = if width < area.width {
        width
    } else {
        area.width
    };
    let h: u16 = if height < area.height {
        height
    } else {
        area.height
    };
    Rect {
        x: area.x + area.width.saturating_sub(w) / 2,
        y: area.y + area.height.saturating_sub(h) / 2,
        width: w,
        height: h,
    }
}

/// Whether the whole of `area` lies on the grid.
pub open spec fn on_grid(area: Rect) -> bool {
    area.x + area.width <= u16::MAX && area.y + area.height <= u16::MAX
}

/// A centered box stays inside the area it is centered in, on an area that fits
/// the grid, and its left and right margins differ by at most one cell, as its
/// top and bottom margins do.
pub proof fn lemma_centered_stays_inside(area: Rect, width: u16, height: u16)
    requires
        on_grid(area),
    ensures
        center_fits(area, width, height),
        ({
            let r = centered(area, width, height);
            &&& area.x <= r.x && r.x + r.width <= area.x + area.width
            &&& area.y <= r.y && r.y + r.height <= area.y + area.height
            &&& r.width == least(width as int, area.width as int)
            &&& r.height == least(height as int, area.height as int)
            &&& 0 <= (area.x + area.width) - (r.x + r.width) - (r.x - area.x) <= 1
            &&& 0 <= (area.y + area.height) - (r.y + r.height) - (r.y - area.y) <= 1
        }),
{
}

/// A rectangle on the grid holds its cells: its corners, none beside it, and as many
/// columns and rows as it is wide and high.
pub proof fn lemma_a_rectangle_holds_its_cells(area: Rect, col: int, row: int)
    requires
        on_grid(area),
    ensures
        area.holds(col, row) <==> 0 <= col - area.x < area.width && 0 <= row - area.y
            < area.height,
        !Rect::none().holds(col, row),
{
}

/// A border takes one cell on each side of the pane.
pub proof fn lemma_a_border_takes_a_cell_on_each_side(area: Rect, col: int, row: int)
    requires
        on_grid(area),
    ensures
        inner_of(area).holds(col, row) <==> area.holds(col - 1, row - 1) && area.holds(
            col + 1,
            row + 1,
        ),
{
}

/// The parts of a pane have the rows they ask for: the banner one, the box what it is
/// given as far as there is room below the banner, and the transcript the rest.
pub proof fn lemma_the_parts_of_a_pane_have_their_rows(
    area: Rect,
    has_banner: bool,
    compose_height: u16,
)
    ensures
        ({
            let inner = inner_of(area);
            let (banner, transcript, compose) = compose_split(
                area,
                has_banner,
                compose_height as int,
            );
            &&& has_banner && inner.height > 0 ==> banner.height == 1
            &&& !has_banner || inner.height == 0 ==> banner.height == 0
            &&& compose.height <= compose_height
            &&& compose.height == compose_height || transcript.height == 0
        }),
{
}

/// A draft takes a bar of its own exactly on a board whose preview pane could not hold
/// the banner, three rows of transcript and the tallest box: on one of fewer than
/// seventeen rows.
pub proof fn lemma_a_short_board_takes_a_bar(board_height: int)
    requires
        0 <= board_height,
    ensures
        pane_inner_height(board_height) < COMPOSE_MIN_DOCK_HEIGHT <==> board_height < 17,
        board_height >= 5 ==> pane_inner_height(board_height) + 5 == board_height,
{
}

} // verus!
