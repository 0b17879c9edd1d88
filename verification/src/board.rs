//! The whole board: where its parts stand, and what a frame of it is drawn of.

use vstd::prelude::*;
use crate::app::{App, ComposeState, Row};
use crate::chrome::{
    header_draws, header_reads_as_spelled, help_draws, render_header, render_help, render_search,
    search_draws,
};
use crate::compose::{compose_zone_height, render_compose_zone, text_rows, zone_draws};
use crate::draw::{append, draw_views, Draw, DrawView};
use crate::geometry::{
    compose_uses_bottom_bar, least, on_grid, pane_inner_height, Rect, BOARD_CHROME_ROWS,
    COMPOSE_MIN_DOCK_HEIGHT,
};
use crate::list::{
    after_list, lemma_a_drawn_list_shows_its_selection, list_draws, render_list, row_item,
    row_items, row_lead,
};
use crate::modal::{
    interrupt_confirm_draws, modal_draws, render_interrupt_confirm, render_modal,
    render_stop_confirm, stop_confirm_draws,
};
use crate::paths::reads_as_spelled;
use crate::preview::{
    after_preview, docks, drawn_as_measured, lemma_a_frame_settles,
    lemma_what_is_asked_changes_no_pane, pane_split, pending_reply, preview_draws, render_preview,
    Transcript,
};
use crate::rows::MAX_PANE_WIDTH;
use crate::style::{line_views, Alignment, Line, LineView};

verus! {

/// The sum of the fixed sizes.
pub open spec fn fixed_total(sizes: Seq<Option<u16>>) -> int
    decreases sizes.len(),
{
    if sizes.len() == 0 {
        0
    } else {
        fixed_total(sizes.drop_last()) + match sizes.last() {
            Some(size) => size as int,
            None => 0,
        }
    }
}

/// How many sizes are not fixed.
pub open spec fn fill_count(sizes: Seq<Option<u16>>) -> int
    decreases sizes.len(),
{
    if sizes.len() == 0 {
        0
    } else {
        fill_count(sizes.drop_last()) + match sizes.last() {
            Some(_) => 0int,
            None => 1,
        }
    }
}

/// The sum of the first sizes, where one that is not fixed takes `rest`.
pub open spec fn start_of(sizes: Seq<Option<u16>>, rest: int) -> int
    decreases sizes.len(),
{
    if sizes.len() == 0 {
        0
    } else {
        start_of(sizes.drop_last(), rest) + size_of(sizes.last(), rest)
    }
}

/// A size, where one that is not fixed takes `rest`.
pub open spec fn size_of(size: Option<u16>, rest: int) -> int {
    match size {
        Some(size) => size as int,
        None => rest,
    }
}

/// The stretch of `area` from `start` on, `size` cells long, from the top down or
/// from left to right.
pub open spec fn stretch(area: Rect, vertical: bool, start: int, size: int) -> Rect {
    if vertical {
        Rect { y: (area.y + start) as u16, height: size as u16, ..area }
    } else {
        Rect { x: (area.x + start) as u16, width: size as u16, ..area }
    }
}

/// Where an area starts along the split.
pub open spec fn edge_of(area: Rect, vertical: bool) -> int {
    if vertical {
        area.y as int
    } else {
        area.x as int
    }
}

/// How long an area is along the split.
pub open spec fn extent_of(area: Rect, vertical: bool) -> int {
    if vertical {
        area.height as int
    } else {
        area.width as int
    }
}

/// Whether the parts tile the area: the first starts where the area does, each
/// other one where the one before it ends, and the last ends where the area does.
pub open spec fn parts_tile(area: Rect, vertical: bool, parts: Seq<Rect>) -> bool {
    &&& parts.len() > 0
    &&& edge_of(parts[0], vertical) == edge_of(area, vertical)
    &&& forall|i: int|
        0 < i < parts.len() ==> edge_of(#[trigger] parts[i], vertical) == edge_of(
            parts[i - 1],
            vertical,
        ) + extent_of(parts[i - 1], vertical)
    &&& edge_of(parts.last(), vertical) + extent_of(parts.last(), vertical) == edge_of(
        area,
        vertical,
    ) + extent_of(area, vertical)
}

/// Whether no part is longer than its size, and one that is not fixed is empty
/// where the others leave it nothing.
pub open spec fn parts_fit(
    area: Rect,
    vertical: bool,
    sizes: Seq<Option<u16>>,
    parts: Seq<Rect>,
) -> bool {
    forall|i: int|
        0 <= i < parts.len() ==> match sizes[i] {
            Some(size) => extent_of(#[trigger] parts[i], vertical) <= size,
            None => fixed_total(sizes) >= extent_of(area, vertical) ==> extent_of(
                parts[i],
                vertical,
            ) == 0,
        }
}

/// `ratatui::layout::Layout::split`, with `Constraint::Length` for a fixed size
/// and `Constraint::Fill(1)` for one that is not. Every part has the area's full
/// breadth. Where the area lies on the grid and one size is not fixed, the parts
/// tile the area, none is longer than its size, and the one that is not fixed is
/// empty where the others leave it nothing: the solver weighs a gap or an overlap
/// of two parts higher than a fixed size, and that higher than the growth of what
/// is not fixed. Where the fixed sizes fit, each part has its size, and the one
/// that is not fixed takes what is left. Where they do not, how many cells each of
/// them gives up is left unsaid: it rests on the order in which a solver that each
/// process seeds walks its tables. The parts are few, because the solver shares a
/// cell among them in fractions before it rounds: among this many, two ends that
/// meet are never rounded apart.
#[verifier::external_body]
fn layout_split(area: Rect, vertical: bool, sizes: &Vec<Option<u16>>) -> (parts: Vec<Rect>)
    requires
        sizes@.len() <= 5,
    ensures
        parts@.len() == sizes@.len(),
        forall|i: int|
            0 <= i < parts@.len() ==> if vertical {
                (#[trigger] parts@[i]).x == area.x && parts@[i].width == area.width
            } else {
                parts@[i].y == area.y && parts@[i].height == area.height
            },
        on_grid(area) && fill_count(sizes@) == 1 ==> parts_tile(area, vertical, parts@)
            && parts_fit(area, vertical, sizes@, parts@),
        ({
            let rest = extent_of(area, vertical) - fixed_total(sizes@);
            on_grid(area) && fill_count(sizes@) == 1 && rest >= 0 ==> forall|i: int|
                0 <= i < parts@.len() ==> #[trigger] parts@[i] == stretch(
                    area,
                    vertical,
                    start_of(sizes@.take(i), rest),
                    size_of(sizes@[i], rest),
                )
        }),
{
    let direction = if vertical {
        ratatui::layout::Direction::Vertical
    } else {
        ratatui::layout::Direction::Horizontal
    };
    let constraints = sizes.iter().map(|size| match size {
        Some(length) => ratatui::layout::Constraint::Length(*length),
        None => ratatui::layout::Constraint::Fill(1),
    });
    let whole = ratatui::layout::Rect { x: area.x, y: area.y, width: area.width, height: area.height };
    let parts = ratatui::layout::Layout::new(direction, constraints).split(whole);
    parts.iter().map(|p| Rect { x: p.x, y: p.y, width: p.width, height: p.height }).collect()
}

/// Where the parts of the board stand.
#[derive(Debug, Clone, Copy, PartialEq, Eq, Structural)]
pub struct Board {
    pub header: Rect,
    pub body: Rect,
    /// The bar of the open draft, on a board that is too short to dock its box.
    pub compose_bar: Option<Rect>,
    pub search: Rect,
    pub help: Rect,
    pub list: Rect,
    pub preview: Rect,
}

/// Whether the open draft takes a bar of its own on a board of `height` rows.
pub open spec fn takes_bar(app: App, height: int) -> bool {
    app.compose is Some && pane_inner_height(height) < COMPOSE_MIN_DOCK_HEIGHT
}

/// The rows that the board needs besides its body.
pub open spec fn chrome_rows(app: App, height: int) -> int {
    if takes_bar(app, height) {
        BOARD_CHROME_ROWS + text_rows(app) + 2
    } else {
        BOARD_CHROME_ROWS as int
    }
}

/// Rows `start..start + rows` of `area`.
pub open spec fn rows_at(area: Rect, start: int, rows: int) -> Rect {
    Rect { y: (area.y + start) as u16, height: rows as u16, ..area }
}

/// Whether the rows of the board stand where they belong: the header on top, the
/// search line and the help line at the bottom, a bar above them where there is
/// one, and the body in between.
pub open spec fn rows_stand(app: App, area: Rect, board: Board) -> bool {
    let height = area.height as int;
    let chrome = chrome_rows(app, height);
    let body = height - chrome;
    &&& board.header == rows_at(area, 0, 1)
    &&& board.body == rows_at(area, 1, body)
    &&& board.compose_bar == (if takes_bar(app, height) {
        Some(rows_at(area, 1 + body, text_rows(app) + 2))
    } else {
        None
    })
    &&& board.search == rows_at(area, height - 2, 1)
    &&& board.help == rows_at(area, height - 1, 1)
}

/// Whether the rows of the board neither overlap nor leave a gap: they follow each
/// other from the top of the area to its bottom.
pub open spec fn rows_tile(area: Rect, board: Board) -> bool {
    &&& board.header.y == area.y
    &&& board.header.y + board.header.height == board.body.y
    &&& match board.compose_bar {
        Some(bar) => board.body.y + board.body.height == bar.y && bar.y + bar.height
            == board.search.y,
        None => board.body.y + board.body.height == board.search.y,
    }
    &&& board.search.y + board.search.height == board.help.y
    &&& board.help.y + board.help.height == area.y + area.height
}

/// Whether no row of the board is taller than it asks for, and the body gives way
/// first: it is empty where the others leave it nothing.
pub open spec fn rows_fit(app: App, area: Rect, board: Board) -> bool {
    &&& board.header.height <= 1
    &&& board.search.height <= 1
    &&& board.help.height <= 1
    &&& board.compose_bar matches Some(bar) ==> bar.height <= text_rows(app) + 2
    &&& chrome_rows(app, area.height as int) >= area.height ==> board.body.height == 0
}

/// Whether every part of the board has the breadth it belongs to: the rows that of
/// the area, and the panes the height of the body.
pub open spec fn breadths_stand(app: App, area: Rect, board: Board) -> bool {
    &&& board.header.x == area.x && board.header.width == area.width
    &&& board.body.x == area.x && board.body.width == area.width
    &&& board.compose_bar matches Some(bar) ==> bar.x == area.x && bar.width == area.width
    &&& board.search.x == area.x && board.search.width == area.width
    &&& board.help.x == area.x && board.help.width == area.width
    &&& app.show_preview ==> board.list.y == board.body.y && board.list.height
        == board.body.height && board.preview.y == board.body.y && board.preview.height
        == board.body.height
}

/// Whether the panes stand where they belong in the body: the list on the left, at
/// its width or at the body's where that is less, and the preview right of it; or
/// the list alone.
pub open spec fn panes_stand(app: App, list_width: int, board: Board) -> bool {
    if app.show_preview {
        let width = least(list_width, board.body.width as int);
        &&& board.list == (Rect { width: width as u16, ..board.body })
        &&& board.preview == (Rect {
            x: (board.body.x + width) as u16,
            width: (board.body.width - width) as u16,
            ..board.body
        })
    } else {
        board.list == board.body && board.preview == Rect::none()
    }
}

/// Lay the board out on `area`: the header, the body, the bar of the open draft
/// where it takes one, the search line and the help line, from the top down; and
/// in the body the list and the preview, side by side, or the list alone.
pub fn lay_out(app: &App, area: Rect, list_width: u16) -> (board: Board)
    ensures
        board.compose_bar is Some <==> takes_bar(*app, area.height as int),
        breadths_stand(*app, area, board),
        !app.show_preview ==> panes_stand(*app, list_width as int, board),
        on_grid(area) ==> {
            &&& on_grid(list_area(*app, board))
            &&& on_grid(board.preview)
            &&& rows_tile(area, board)
            &&& rows_fit(*app, area, board)
            &&& panes_stand(*app, list_width as int, board)
        },
        on_grid(area) && chrome_rows(*app, area.height as int) <= area.height ==> rows_stand(
            *app,
            area,
            board,
        ),
{
    let bar = compose_uses_bottom_bar(app.compose.is_some(), area.height);
    let mut sizes: Vec<Option<u16>> = Vec::new();
    sizes.push(Some(1));
    sizes.push(None);
    if bar {
        sizes.push(Some(compose_zone_height(app)));
    }
    sizes.push(Some(1));
    sizes.push(Some(1));
    proof {
        lemma_row_sizes(sizes@, bar, text_rows(*app) + 2, area.height as int);
    }
    let parts = layout_split(area, true, &sizes);
    let header = parts[0];
    let body = parts[1];
    let compose_bar = if bar {
        Some(parts[2])
    } else {
        None
    };
    let search = parts[parts.len() - 2];
    let help = parts[parts.len() - 1];
    let (list, preview) = if app.show_preview {
        let mut halves: Vec<Option<u16>> = Vec::new();
        halves.push(Some(list_width));
        halves.push(None);
        proof {
            lemma_column_sizes(halves@, list_width, body.width as int);
        }
        let panes = layout_split(body, false, &halves);
        (panes[0], panes[1])
    } else {
        (body, Rect::none())
    };
    Board { header, body, compose_bar, search, help, list, preview }
}

/// Where the rows of the board start.
proof fn lemma_row_sizes(sizes: Seq<Option<u16>>, bar: bool, zone: int, height: int)
    requires
        0 <= zone <= u16::MAX,
        sizes =~= (if bar {
            seq![Some(1u16), None, Some(zone as u16), Some(1u16), Some(1u16)]
        } else {
            seq![Some(1u16), None, Some(1u16), Some(1u16)]
        }),
    ensures
        fill_count(sizes) == 1,
        fixed_total(sizes) == if bar {
            3 + zone
        } else {
            3
        },
        ({
            let rest = height - fixed_total(sizes);
            &&& start_of(sizes.take(0), rest) == 0
            &&& start_of(sizes.take(1), rest) == 1
            &&& start_of(sizes.take(2), rest) == 1 + rest
            &&& bar ==> start_of(sizes.take(3), rest) == 1 + rest + zone && start_of(
                sizes.take(4),
                rest,
            ) == 2 + rest + zone
            &&& !bar ==> start_of(sizes.take(3), rest) == 2 + rest
        }),
{
    let rest = height - fixed_total(sizes);
    assert(sizes.take(1).drop_last() =~= sizes.take(0));
    assert(sizes.take(2).drop_last() =~= sizes.take(1));
    assert(sizes.take(3).drop_last() =~= sizes.take(2));
    assert(sizes.take(4).drop_last() =~= sizes.take(3));
    assert(sizes.take(4) =~= if bar {
        sizes.drop_last()
    } else {
        sizes
    });
    assert(sizes.take(0) =~= seq![]);
    reveal_with_fuel(fill_count, 6);
    reveal_with_fuel(fixed_total, 6);
    reveal_with_fuel(start_of, 6);
}

/// Where the columns of the body start.
proof fn lemma_column_sizes(sizes: Seq<Option<u16>>, list_width: u16, width: int)
    requires
        sizes =~= seq![Some(list_width), None],
    ensures
        fill_count(sizes) == 1,
        fixed_total(sizes) == list_width,
        start_of(sizes.take(0), width - list_width) == 0,
        start_of(sizes.take(1), width - list_width) == list_width,
{
    assert(sizes.take(1).drop_last() =~= sizes.take(0));
    assert(sizes.drop_last() =~= sizes.take(1));
    assert(sizes.take(0) =~= seq![]);
    reveal_with_fuel(fill_count, 3);
    reveal_with_fuel(fixed_total, 3);
    reveal_with_fuel(start_of, 3);
}

/// The board's state once it was told where its panes stand. A hidden preview
/// stands nowhere, and drops a pending jump.
pub open spec fn placed(app: App, board: Board) -> App {
    if app.show_preview {
        App { list_rect: board.list, preview_rect: board.preview, ..app }
    } else {
        App {
            list_rect: board.body,
            preview_rect: Rect::none(),
            preview_match_jump: false,
            ..app
        }
    }
}

/// Where the list stands.
pub open spec fn list_area(app: App, board: Board) -> Rect {
    if app.show_preview {
        board.list
    } else {
        board.body
    }
}

/// The board's state once its list was drawn.
pub open spec fn listed(app: App, board: Board) -> App {
    after_list(placed(app, board), list_area(app, board))
}

/// The body: the list, and the preview where it is shown.
pub open spec fn body_draws(
    app: App,
    board: Board,
    transcript: Transcript,
    tail: Seq<LineView>,
) -> Seq<DrawView> {
    let list = list_draws(placed(app, board), list_area(app, board));
    if app.show_preview {
        list + preview_draws(listed(app, board), board.preview, transcript, tail)
    } else {
        list
    }
}

/// The state that a drawn body leaves.
pub open spec fn after_body(
    app: App,
    board: Board,
    transcript: Transcript,
    tail: Seq<LineView>,
) -> App {
    if app.show_preview {
        after_preview(listed(app, board), board.preview, transcript, tail)
    } else {
        listed(app, board)
    }
}

/// Draw the body.
pub fn render_body(
    app: &mut App,
    board: &Board,
    transcript: &Transcript,
    tail: &Vec<Line>,
) -> (draws: Vec<Draw>)
    requires
        old(app).rows_valid(),
        on_grid(list_area(*old(app), *board)),
        transcript.valid(),
        board.preview.width <= MAX_PANE_WIDTH,
    ensures
        draw_views(draws@) == body_draws(*old(app), *board, *transcript, line_views(tail@)),
        *final(app) == after_body(*old(app), *board, *transcript, line_views(tail@)),
        old(app).show_preview && old(app).draft is Some ==> reads_as_spelled(
            old(app).launch_dir@,
        ),
        old(app).show_preview ==> drawn_as_measured(
            listed(*old(app), *board),
            board.preview,
            *transcript,
            line_views(tail@),
        ),
{
    if app.show_preview {
        app.list_rect = board.list;
        app.preview_rect = board.preview;
        let mut draws = render_list(app, board.list);
        let preview = render_preview(app, board.preview, transcript, tail);
        append(&mut draws, preview);
        draws
    } else {
        app.list_rect = board.body;
        app.preview_rect = Rect::none();
        app.preview_match_jump = false;
        render_list(app, board.body)
    }
}

/// The bar of the open draft, where it takes one.
pub open spec fn bar_draws(app: App, board: Board) -> Seq<DrawView> {
    match board.compose_bar {
        Some(bar) => zone_draws(app, bar),
        None => seq![],
    }
}

/// The question that lies on top of the board, where there is one.
pub open spec fn question_draws(app: App, screen: Rect) -> Seq<DrawView> {
    match app.modal {
        Some(modal) => modal_draws(modal, screen),
        None => seq![],
    }
}

/// A frame of the board: the header, the body, the bar of the open draft, the
/// search line and the help line; and on top of them what is asked.
pub open spec fn board_draws(
    app: App,
    screen: Rect,
    board: Board,
    transcript: Transcript,
    tail: Seq<LineView>,
) -> Seq<DrawView> {
    let after = after_body(app, board, transcript, tail);
    header_draws(app, board.header) + body_draws(app, board, transcript, tail) + bar_draws(
        after,
        board,
    ) + search_draws(after, board.search) + help_draws(after, board.help) + question_draws(
        after,
        screen,
    ) + stop_confirm_draws(after, screen) + interrupt_confirm_draws(after, screen)
}

/// Draw a frame of the board, laid out as `board` on `screen`.
pub fn render(
    app: &mut App,
    screen: Rect,
    board: &Board,
    transcript: &Transcript,
    tail: &Vec<Line>,
) -> (draws: Vec<Draw>)
    requires
        old(app).rows_valid(),
        on_grid(list_area(*old(app), *board)),
        transcript.valid(),
        board.preview.width <= MAX_PANE_WIDTH,
        on_grid(screen),
    ensures
        draw_views(draws@) == board_draws(
            *old(app),
            screen,
            *board,
            *transcript,
            line_views(tail@),
        ),
        *final(app) == after_body(*old(app), *board, *transcript, line_views(tail@)),
        header_reads_as_spelled(*old(app)),
        old(app).show_preview && old(app).draft is Some ==> reads_as_spelled(
            old(app).launch_dir@,
        ),
        old(app).show_preview ==> drawn_as_measured(
            listed(*old(app), *board),
            board.preview,
            *transcript,
            line_views(tail@),
        ),
{
    let mut draws = render_header(app, board.header);
    let body = render_body(app, board, transcript, tail);
    append(&mut draws, body);
    let ghost so_far = draw_views(draws@);
    if let Some(bar) = board.compose_bar {
        let zone = render_compose_zone(app, bar);
        append(&mut draws, zone);
    }
    assert(draw_views(draws@) =~= so_far + bar_draws(*app, *board));
    let search = render_search(app, board.search);
    append(&mut draws, search);
    let help = render_help(app, board.help);
    append(&mut draws, help);
    let ghost lined = draw_views(draws@);
    if let Some(modal) = &app.modal {
        let question = render_modal(modal, screen);
        append(&mut draws, question);
    }
    assert(draw_views(draws@) =~= lined + question_draws(*app, screen));
    let stop = render_stop_confirm(app, screen);
    append(&mut draws, stop);
    let interrupt = render_interrupt_confirm(app, screen);
    append(&mut draws, interrupt);
    draws
}

/// The open draft has one place: on a board laid out with its preview, its box is
/// docked in the preview exactly where it takes no bar of its own, on every board
/// that has room for its rows.
pub proof fn lemma_an_open_draft_has_one_place(app: App, area: Rect, board: Board)
    requires
        app.compose is Some,
        app.show_preview,
        on_grid(area),
        chrome_rows(app, area.height as int) <= area.height,
        rows_stand(app, area, board),
        board.preview.height == board.body.height,
    ensures
        docks(app, board.preview) <==> board.compose_bar is None,
{
}

/// A box never moves while its draft grows: where it is drawn depends on the board
/// and not on the rows of the draft.
pub proof fn lemma_a_growing_draft_stays_in_its_place(
    app: App,
    compose: ComposeState,
    screen_rows: usize,
    area: Rect,
    height: int,
)
    requires
        app.compose == Some(compose),
    ensures
        ({
            let grown = App { compose: Some(ComposeState { screen_rows, ..compose }), ..app };
            &&& takes_bar(grown, height) == takes_bar(app, height)
            &&& docks(grown, area) == docks(app, area)
        }),
{
}

/// The rows of a board that stand where they belong neither overlap nor leave a
/// gap.
pub proof fn lemma_the_rows_tile_the_board(app: App, area: Rect, board: Board)
    requires
        on_grid(area),
        chrome_rows(app, area.height as int) <= area.height,
        rows_stand(app, area, board),
    ensures
        rows_tile(area, board),
        rows_fit(app, area, board),
{
}

/// A hidden preview drops a pending jump, so that none fires once it is shown.
pub proof fn lemma_a_hidden_preview_drops_the_jump(
    app: App,
    board: Board,
    transcript: Transcript,
    tail: Seq<LineView>,
)
    ensures
        !after_body(app, board, transcript, tail).preview_match_jump,
        !app.show_preview ==> after_body(app, board, transcript, tail).preview_scroll
            == app.preview_scroll,
{
}

/// A board settles: drawn again with nothing changed in between, it shows the same,
/// and leaves the same state, its list and its pane where they stand. So a frame
/// depends on nothing but what it is given, and what it leaves behind moves nothing
/// in the next. The next frame is laid out and measured as this one was: the same
/// rows are asked for, and the same area is left for the transcript.
pub proof fn lemma_a_board_settles(
    app: App,
    screen: Rect,
    board: Board,
    transcript: Transcript,
    tail: Seq<LineView>,
)
    requires
        transcript.valid(),
    ensures
        ({
            let after = after_body(app, board, transcript, tail);
            &&& board_draws(after, screen, board, transcript, tail) == board_draws(
                app,
                screen,
                board,
                transcript,
                tail,
            )
            &&& after_body(after, board, transcript, tail) == after
            &&& after.show_preview == app.show_preview
            &&& takes_bar(after, screen.height as int) == takes_bar(app, screen.height as int)
            &&& chrome_rows(after, screen.height as int) == chrome_rows(app, screen.height as int)
            &&& pane_split(after, board.preview) == pane_split(app, board.preview)
            &&& pending_reply(after) == pending_reply(app)
        }),
{
    let after = after_body(app, board, transcript, tail);
    let area = list_area(app, board);
    lemma_frames_share_their_state(app, after, board);
    if app.rows@.len() > 0 {
        lemma_a_drawn_list_shows_its_selection(placed(app, board), area);
    }
    assert(listed(after, board) == after);
    if app.show_preview {
        lemma_a_frame_settles(listed(app, board), board.preview, transcript, tail);
    }
}

/// Neither the header nor the rows of the list depend on where the list and the
/// panes stand, and neither does what a pane has to show.
proof fn lemma_frames_share_their_state(a: App, b: App, board: Board)
    requires
        b == (App {
            scroll: b.scroll,
            list_rect: b.list_rect,
            preview_rect: b.preview_rect,
            preview_match_jump: b.preview_match_jump,
            preview_viewport_h: b.preview_viewport_h,
            preview_scroll: b.preview_scroll,
            preview_follow_bottom: b.preview_follow_bottom,
            ..a
        }),
    ensures
        header_draws(a, board.header) == header_draws(b, board.header),
        forall|width: int|
            #[trigger] row_items(placed(a, board), width) == row_items(placed(b, board), width),
        pane_split(a, board.preview) == pane_split(b, board.preview),
        pending_reply(a) == pending_reply(b),
{
    let p = placed(a, board);
    let q = placed(b, board);
    assert forall|width: int| #[trigger] row_items(p, width) == row_items(q, width) by {
        assert forall|i: int| 0 <= i < p.rows@.len() implies #[trigger] row_items(p, width)[i]
            == row_items(q, width)[i] by {
            lemma_rows_do_not_depend_on_panes(p, q, p.rows@[i], width);
        }
        assert(row_items(p, width) =~= row_items(q, width));
    }
}

/// No row of the list depends on where the panes stand.
proof fn lemma_rows_do_not_depend_on_panes(a: App, b: App, row: Row, content_width: int)
    requires
        a.sessions == b.sessions,
        a.reported == b.reported,
        a.hidden_ids == b.hidden_ids,
        a.query == b.query,
        a.tick == b.tick,
    ensures
        row_item(a, row, content_width) == row_item(b, row, content_width),
{
    match row {
        Row::Group { .. } => {},
        Row::Session { index, hidden, child } => {
            let session = a.sessions@[index as int];
            assert(a.agent(session.session_id@) == b.agent(session.session_id@));
            assert(a.hidden(session.session_id@) == b.hidden(session.session_id@));
            assert(row_lead(a, session, child) == row_lead(b, session, child));
        },
    }
}

/// What is asked lies on top: a frame with questions is the frame without them, and
/// then the questions: the modal, and over it what is to be stopped.
pub proof fn lemma_what_is_asked_lies_on_top(
    app: App,
    screen: Rect,
    board: Board,
    transcript: Transcript,
    tail: Seq<LineView>,
)
    ensures
        ({
            let quiet = (App {
                modal: None,
                pending_stop: None,
                pending_interrupt: None,
                ..app
            });
            let frame = board_draws(app, screen, board, transcript, tail);
            let below = board_draws(quiet, screen, board, transcript, tail);
            &&& frame == below + question_draws(app, screen) + stop_confirm_draws(app, screen)
                + interrupt_confirm_draws(app, screen)
            &&& app.modal matches Some(modal) ==> question_draws(app, screen) == modal_draws(
                modal,
                screen,
            )
            &&& app.modal is None ==> question_draws(app, screen).len() == 0
        }),
{
    let quiet = App { modal: None, pending_stop: None, pending_interrupt: None, ..app };
    let after = after_body(app, board, transcript, tail);
    let calm = after_body(quiet, board, transcript, tail);
    lemma_what_is_asked_changes_no_body(app, quiet, board, transcript, tail);
    assert(header_draws(app, board.header) == header_draws(quiet, board.header));
    assert(bar_draws(after, board) == bar_draws(calm, board));
    assert(search_draws(after, board.search) == search_draws(calm, board.search));
    assert(help_draws(after, board.help) == help_draws(calm, board.help));
    assert(after.sessions == app.sessions);
    assert(stop_confirm_draws(after, screen) == stop_confirm_draws(app, screen));
    assert(interrupt_confirm_draws(after, screen) == interrupt_confirm_draws(app, screen));
    assert(question_draws(after, screen) == question_draws(app, screen));
    assert(question_draws(calm, screen) =~= seq![]);
    assert(stop_confirm_draws(calm, screen) =~= seq![]);
    assert(interrupt_confirm_draws(calm, screen) =~= seq![]);
    let below = board_draws(quiet, screen, board, transcript, tail);
    assert(below =~= header_draws(app, board.header) + body_draws(app, board, transcript, tail)
        + bar_draws(after, board) + search_draws(after, board.search) + help_draws(
        after,
        board.help,
    ));
}

/// What is asked on top of the board changes nothing of its body.
#[verifier::spinoff_prover]
proof fn lemma_what_is_asked_changes_no_body(
    app: App,
    other: App,
    board: Board,
    transcript: Transcript,
    tail: Seq<LineView>,
)
    requires
        other == (App {
            modal: other.modal,
            pending_stop: other.pending_stop,
            pending_interrupt: other.pending_interrupt,
            ..app
        }),
    ensures
        body_draws(other, board, transcript, tail) == body_draws(app, board, transcript, tail),
        after_body(other, board, transcript, tail) == (App {
            modal: other.modal,
            pending_stop: other.pending_stop,
            pending_interrupt: other.pending_interrupt,
            ..after_body(app, board, transcript, tail)
        }),
{
    let p = placed(app, board);
    let q = placed(other, board);
    let area = list_area(app, board);
    assert forall|width: int| #[trigger] row_items(p, width) == row_items(q, width) by {
        assert forall|i: int| 0 <= i < p.rows@.len() implies #[trigger] row_items(p, width)[i]
            == row_items(q, width)[i] by {
            lemma_rows_do_not_depend_on_panes(p, q, p.rows@[i], width);
        }
        assert(row_items(p, width) =~= row_items(q, width));
    }
    assert(list_draws(p, area) == list_draws(q, area));
    lemma_what_is_asked_changes_no_pane(
        listed(app, board),
        listed(other, board),
        board.preview,
        transcript,
        tail,
    );
}

/// Each line of the board is drawn in its row: the header first, and where nothing is
/// asked the search line and the help line last.
pub proof fn lemma_each_line_is_drawn_in_its_row(
    app: App,
    screen: Rect,
    board: Board,
    transcript: Transcript,
    tail: Seq<LineView>,
)
    requires
        app.modal is None && app.pending_stop is None && app.pending_interrupt is None,
    ensures
        ({
            let frame = board_draws(app, screen, board, transcript, tail);
            let n = frame.len() as int;
            &&& n >= 4
            &&& frame[0] matches DrawView::Text(text) && text.area == board.header
            &&& frame[1] matches DrawView::Text(text) && text.area == board.header
                && text.alignment == Alignment::Right
            &&& frame[n - 2] matches DrawView::Text(text) && text.area == board.search
            &&& frame[n - 1] matches DrawView::Text(text) && text.area == board.help
            &&& board.compose_bar matches Some(bar) ==> zone_draws(app, bar).is_suffix_of(
                frame.take(n - 2),
            )
        }),
{
    let frame = board_draws(app, screen, board, transcript, tail);
    let n = frame.len() as int;
    let after = after_body(app, board, transcript, tail);
    if let Some(bar) = board.compose_bar {
        let zone = zone_draws(app, bar);
        assert(zone == zone_draws(after, bar));
        let upper = frame.take(n - 2);
        assert(upper.subrange(upper.len() - zone.len(), upper.len() as int) =~= zone);
    }
}

/// The list takes the columns that the preview leaves: the body's, where the preview is
/// hidden; and then nothing of the preview is drawn, and a click finds none.
pub proof fn lemma_a_hidden_preview_leaves_the_body_to_the_list(
    app: App,
    board: Board,
    transcript: Transcript,
    tail: Seq<LineView>,
)
    ensures
        ({
            let after = after_body(app, board, transcript, tail);
            &&& !app.show_preview ==> {
                &&& after.list_rect == board.body
                &&& after.preview_rect.width == 0 && after.preview_rect.height == 0
                &&& body_draws(app, board, transcript, tail).len() == 1
            }
            &&& app.show_preview ==> {
                &&& after.list_rect == board.list
                &&& after.preview_rect == board.preview
            }
        }),
{
}

/// The panes share the body: the list has its left edge and the columns it asks for, or
/// all where there are fewer, and the preview every column that is left, up to the
/// right edge; no cell is in both, and none in neither.
pub proof fn lemma_the_panes_share_the_body(
    app: App,
    list_width: int,
    board: Board,
    col: int,
    row: int,
)
    requires
        app.show_preview,
        panes_stand(app, list_width, board),
        on_grid(board.body),
        0 <= list_width,
    ensures
        board.body.holds(col, row) <==> board.list.holds(col, row) || board.preview.holds(col, row),
        !(board.list.holds(col, row) && board.preview.holds(col, row)),
        board.list.holds(col, row) ==> board.list.x == board.body.x && col < board.body.x
            + list_width,
        board.preview.holds(col, row) ==> col >= board.body.x + list_width,
{
}

/// A draft takes a bar of its own exactly where one is open and the board has fewer than
/// seventeen rows, and the bar's rows are the box's.
pub proof fn lemma_a_draft_takes_a_bar_on_a_short_board(app: App, height: int)
    requires
        0 <= height,
    ensures
        takes_bar(app, height) <==> app.compose is Some && height < 17,
        chrome_rows(app, height) == 3 + if takes_bar(app, height) {
            text_rows(app) + 2
        } else {
            0
        },
        app.compose is None ==> chrome_rows(app, height) == 3,
{
}

/// Drawing a frame touches nothing but where the list and the pane stand.
pub proof fn lemma_a_frame_touches_no_more_than_its_places(
    app: App,
    board: Board,
    transcript: Transcript,
    tail: Seq<LineView>,
)
    ensures
        ({
            let after = after_body(app, board, transcript, tail);
            let back = (App {
                scroll: app.scroll,
                list_rect: app.list_rect,
                preview_rect: app.preview_rect,
                preview_match_jump: app.preview_match_jump,
                preview_viewport_h: app.preview_viewport_h,
                preview_scroll: app.preview_scroll,
                preview_follow_bottom: app.preview_follow_bottom,
                ..after
            });
            back == app
        }),
{
}

} // verus!
