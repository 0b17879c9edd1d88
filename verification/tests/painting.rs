//! Whole frames, painted by the terminal library and read back cell by cell.

use std::collections::{HashMap, HashSet};

use ratatui::buffer::{Buffer, Cell};
use ratatui::widgets::{StatefulWidget, Widget};

use snapback::agents::{
    badge_color, pulse_color, AgentKind, ReportedAgent, BADGE_DOT, BADGE_NEEDS_INPUT,
};
use snapback::app::{
    App, ComposeState, ComposeTarget, Modal, ModalChoice, ModalLayout, NewSessionDraft,
    PendingStop, Row, Scope, SearchMode, Sending, Session, SessionCounts,
};
use snapback::board::{lay_out, render, Board};
use snapback::chrome::{
    project_name, render_header, render_help, render_search, SEARCH_CURSOR, SEARCH_CURSOR_HIDDEN,
};
use snapback::clock::short_time;
use snapback::compose::{
    compose_zone_height, draft_card, BG_DRAFT_DEFAULT_AGENT, DRAFT_CARD_HEADLINE, DRAFT_CARD_SEPARATOR,
};
use snapback::draw::Draw;
use snapback::geometry::{
    centered_rect, compose_uses_bottom_bar, preview_compose_split, preview_inner, preview_split,
    Rect, BOARD_CHROME_ROWS, COMPOSE_MAX_ZONE_HEIGHT, COMPOSE_MIN_DOCK_HEIGHT, PREVIEW_BANNER_ROWS,
};
use snapback::labels::{
    blink_visible, child_msgs, chord_hint, short_id, wrap_message, BuildInfo, BLINK_TICKS,
    CHILD_MSGS_SUFFIX, LABEL_ELLIPSIS,
};
use snapback::links::{link_at, LinkRegion};
use snapback::list::{render_list, CHILD_GUTTER, LIST_HIGHLIGHT_SYMBOL, ROW_GUTTER};
use snapback::modal::{render_interrupt_confirm, render_modal, render_stop_confirm, MODAL_WIDTH};
use snapback::preview::{preview_areas, preview_banner, render_preview, sending_tail, Transcript};
use snapback::rows::wrapped_text_rows;
use snapback::style::{Alignment, Color, Line, Modifier, Span, Style};
use snapback::worktrees::{project_root_name, WorktreeSet};

// --- painting ---------------------------------------------------------------

fn area_of(rect: Rect) -> ratatui::layout::Rect {
    ratatui::layout::Rect { x: rect.x, y: rect.y, width: rect.width, height: rect.height }
}

fn color_of(color: Color) -> ratatui::style::Color {
    match color {
        Color::Reset => ratatui::style::Color::Reset,
        Color::Black => ratatui::style::Color::Black,
        Color::Red => ratatui::style::Color::Red,
        Color::Green => ratatui::style::Color::Green,
        Color::Yellow => ratatui::style::Color::Yellow,
        Color::Blue => ratatui::style::Color::Blue,
        Color::Magenta => ratatui::style::Color::Magenta,
        Color::Cyan => ratatui::style::Color::Cyan,
        Color::Gray => ratatui::style::Color::Gray,
        Color::DarkGray => ratatui::style::Color::DarkGray,
        Color::LightRed => ratatui::style::Color::LightRed,
        Color::LightGreen => ratatui::style::Color::LightGreen,
        Color::LightYellow => ratatui::style::Color::LightYellow,
        Color::LightBlue => ratatui::style::Color::LightBlue,
        Color::LightMagenta => ratatui::style::Color::LightMagenta,
        Color::LightCyan => ratatui::style::Color::LightCyan,
        Color::White => ratatui::style::Color::White,
        Color::Rgb(r, g, b) => ratatui::style::Color::Rgb(r, g, b),
        Color::Indexed(i) => ratatui::style::Color::Indexed(i),
    }
}

fn modifier_of(modifier: Modifier) -> ratatui::style::Modifier {
    ratatui::style::Modifier::from_bits_truncate(modifier.bits)
}

fn style_of(style: Style) -> ratatui::style::Style {
    let mut out = ratatui::style::Style::default();
    out.fg = style.fg.map(color_of);
    out.bg = style.bg.map(color_of);
    out.add_modifier = modifier_of(style.added);
    out.sub_modifier = modifier_of(style.removed);
    out
}

fn alignment_of(alignment: Alignment) -> ratatui::layout::Alignment {
    match alignment {
        Alignment::Left => ratatui::layout::Alignment::Left,
        Alignment::Center => ratatui::layout::Alignment::Center,
        Alignment::Right => ratatui::layout::Alignment::Right,
    }
}

fn line_of(line: &Line) -> ratatui::text::Line<'static> {
    let spans: Vec<ratatui::text::Span<'static>> = line
        .spans
        .iter()
        .map(|s| ratatui::text::Span::styled(s.text.clone(), style_of(s.style)))
        .collect();
    let mut out = ratatui::text::Line::from(spans);
    out.style = style_of(line.style);
    out.alignment = line.alignment.map(alignment_of);
    out
}

fn block_of(frame: &snapback::draw::Frame) -> ratatui::widgets::Block<'static> {
    ratatui::widgets::Block::bordered()
        .border_style(style_of(frame.border))
        .title(frame.title.clone())
}

/// Paint the draws, with `draft` in the editor.
fn paint(draws: &[Draw], buffer: &mut Buffer, draft: &str) {
    for draw in draws {
        match draw {
            Draw::Border(area, frame) => block_of(frame).render(area_of(*area), buffer),
            Draw::Clear(area) => ratatui::widgets::Clear.render(area_of(*area), buffer),
            Draw::Text(text) => {
                let lines: Vec<ratatui::text::Line<'static>> =
                    text.lines.iter().map(line_of).collect();
                let mut widget = ratatui::widgets::Paragraph::new(ratatui::text::Text::from(lines))
                    .style(style_of(text.style))
                    .alignment(alignment_of(text.alignment))
                    .scroll((text.scroll, 0));
                if let Some(frame) = &text.frame {
                    widget = widget.block(block_of(frame));
                }
                if text.wrap {
                    widget = widget.wrap(ratatui::widgets::Wrap { trim: false });
                }
                widget.render(area_of(text.area), buffer);
            }
            Draw::List(list) => {
                let items: Vec<ratatui::widgets::ListItem<'static>> = list
                    .rows
                    .iter()
                    .map(|r| ratatui::widgets::ListItem::new(line_of(&r.line)).style(style_of(r.style)))
                    .collect();
                let widget = ratatui::widgets::List::new(items)
                    .block(block_of(&list.frame))
                    .highlight_style(style_of(list.highlight))
                    .highlight_symbol(list.symbol.clone());
                let mut state = ratatui::widgets::ListState::default();
                *state.offset_mut() = list.offset;
                state.select(list.selected);
                StatefulWidget::render(widget, area_of(list.area), buffer, &mut state);
                assert_eq!(state.offset(), list.offset, "the list stands where it is drawn");
            }
            Draw::Scroll(bar) => {
                let mut state = ratatui::widgets::ScrollbarState::new(bar.content_length)
                    .position(bar.position)
                    .viewport_content_length(bar.viewport);
                let widget = ratatui::widgets::Scrollbar::new(
                    ratatui::widgets::ScrollbarOrientation::VerticalRight,
                )
                .style(style_of(bar.style))
                .begin_symbol(Some(bar.begin.as_str()))
                .end_symbol(Some(bar.end.as_str()));
                StatefulWidget::render(widget, area_of(bar.area), buffer, &mut state);
            }
            Draw::Editor(area) => {
                ratatui::widgets::Paragraph::new(draft.to_string())
                    .wrap(ratatui::widgets::Wrap { trim: false })
                    .render(area_of(*area), buffer);
            }
        }
    }
}

fn screen(width: u16, height: u16) -> Rect {
    Rect { x: 0, y: 0, width, height }
}

fn painted(draws: &[Draw], width: u16, height: u16) -> Buffer {
    let mut buffer = Buffer::empty(area_of(screen(width, height)));
    paint(draws, &mut buffer, "");
    buffer
}

fn full_row_text(buffer: &Buffer, y: u16, width: u16) -> String {
    (0..width)
        .filter_map(|x| buffer.cell((x, y)).map(|cell| cell.symbol().to_string()))
        .collect::<String>()
        .trim_end()
        .to_string()
}

/// The text of a row inside the borders.
fn row_text(buffer: &Buffer, y: u16, width: u16) -> String {
    (1..width - 1)
        .filter_map(|x| buffer.cell((x, y)).map(|cell| cell.symbol().to_string()))
        .collect::<String>()
        .trim_end()
        .to_string()
}

fn full_text(buffer: &Buffer, width: u16, height: u16) -> String {
    (0..height).map(|y| full_row_text(buffer, y, width)).collect::<Vec<_>>().join("\n")
}

fn column_of(buffer: &Buffer, y: u16, width: u16, needle: &str) -> u16 {
    (0..width)
        .find(|&x| {
            needle.chars().enumerate().all(|(i, ch)| {
                let cx = x + u16::try_from(i).expect("a needle shorter than a terminal row");
                buffer.cell((cx, y)).is_some_and(|cell| cell.symbol() == ch.to_string())
            })
        })
        .unwrap_or_else(|| panic!("{needle:?} must be drawn on row {y}"))
}

fn row_of(buffer: &Buffer, width: u16, height: u16, needle: &str) -> u16 {
    let rows: Vec<u16> =
        (0..height).filter(|&y| row_text(buffer, y, width).contains(needle)).collect();
    assert_eq!(
        rows.len(),
        1,
        "{needle:?} must identify exactly one drawn row, found {rows:?}"
    );
    rows[0]
}

// --- boards -----------------------------------------------------------------

fn session(id: &str) -> Session {
    Session {
        session_id: id.to_string(),
        label: id.to_string(),
        timestamp: None,
        msg_count: 0,
        matched: HashSet::new(),
    }
}

fn agent(kind: AgentKind, state: Option<&str>, status: Option<&str>) -> ReportedAgent {
    ReportedAgent { kind, state: state.map(str::to_owned), status: status.map(str::to_owned) }
}

fn background(state: &str) -> ReportedAgent {
    agent(AgentKind::Background, Some(state), None)
}

fn plain_row(index: usize) -> Row {
    Row::Session { index, hidden: 0, child: false }
}

/// A board of the sessions under one head, with the first one selected.
fn board_of(sessions: Vec<Session>) -> App {
    let mut rows = vec![];
    if !sessions.is_empty() {
        rows.push(Row::Group { repo: "project-alpha".to_string(), branch: "main".to_string() });
    }
    rows.extend((0..sessions.len()).map(plain_row));
    App {
        build: BuildInfo { debug_build: true, git_hash: "abc1234".to_string(), dirty: false },
        scope: Scope::All,
        all_scope_enabled: true,
        search_mode: SearchMode::NameOnly,
        launch_dir: b"/tmp/launch".to_vec(),
        repo_root: b"/tmp/launch".to_vec(),
        worktrees: WorktreeSet::empty(),
        counts: SessionCounts { visible: sessions.len(), total: sessions.len(), hidden: 0 },
        selected: sessions.first().map(|s| s.session_id.clone()),
        selected_row: if sessions.is_empty() { None } else { Some(1) },
        sessions,
        rows,
        hidden_ids: vec![],
        reported: vec![],
        tick: 0,
        scroll: 0,
        query: String::new(),
        status: None,
        pending_chord: false,
        compose: None,
        draft: None,
        sending: None,
        modal: None,
        pending_stop: None,
        pending_interrupt: None,
        show_preview: true,
        list_rect: Rect::none(),
        preview_rect: Rect::none(),
        preview_scroll: 0,
        preview_follow_bottom: true,
        preview_viewport_h: 0,
        preview_match_jump: false,
    }
}

fn sample_board() -> App {
    board_of(vec![session("sess-normal-1")])
}

fn text_line(text: &str) -> Line {
    if text.is_empty() {
        Line::blank()
    } else {
        Line::from_span(Span::raw(text))
    }
}

/// What a session's transcript reads.
const TRANSCRIPT: [&str; 11] = [
    "\u{25b6} you",
    "Why does the webhook keep failing on every retry?",
    "",
    "\u{25cf} agent",
    "The handler times out before the queue drains, so each retry starts over from the top.",
    "",
    "\u{25b6} you",
    "Can you put a limit on the retries?",
    "",
    "\u{25cf} agent",
    "Added a limit of five retries to the webhook and some extra logging.",
];

fn transcript_lines() -> Vec<Line> {
    TRANSCRIPT.iter().map(|text| text_line(text)).collect()
}

/// The turns of a pending reply, as they render.
fn reply_lines(app: &App) -> Vec<Line> {
    match sending_tail(app) {
        None => vec![],
        Some(tail) => {
            let mut lines = vec![Line::blank()];
            if let Some(echo) = &tail.echo {
                lines.push(text_line("\u{25b6} you"));
                lines.push(text_line(echo));
                lines.push(Line::blank());
            }
            lines.push(text_line("\u{25cf} agent"));
            lines.push(text_line(&tail.label));
            lines
        }
    }
}

fn positions(text: &str, query: &str) -> HashSet<usize> {
    let chars: Vec<char> = text.chars().collect();
    let wanted: Vec<char> = query.chars().collect();
    let mut found = HashSet::new();
    if wanted.is_empty() {
        return found;
    }
    for start in 0..chars.len() {
        if chars[start..].starts_with(&wanted) {
            found.extend(start..start + wanted.len());
        }
    }
    found
}

/// The lines measured at `width`, with the query marked where it occurs.
fn measured(lines: Vec<Line>, width: u16, query: &str, target: Option<usize>) -> Transcript {
    let matches = if query.is_empty() {
        None
    } else {
        let mut all: HashMap<usize, HashSet<usize>> = HashMap::new();
        for (i, line) in lines.iter().enumerate() {
            let text: String = line.spans.iter().map(|s| s.text.as_str()).collect();
            let found = positions(&text, query);
            if !found.is_empty() {
                all.insert(i, found);
            }
        }
        Some(all)
    };
    Transcript::measured(lines, width, matches, target)
}

/// Draw the preview over the whole of a screen.
fn preview_of(app: &mut App, lines: Vec<Line>, width: u16, height: u16) -> Buffer {
    let area = screen(width, height);
    let (_, inner, _) = preview_areas(app, area);
    let query = app.query.clone();
    let transcript = measured(lines, inner.width, &query, None);
    let tail = reply_lines(app);
    let draws = render_preview(app, area, &transcript, &tail);
    painted(&draws, width, height)
}

fn inner_rows(app: &mut App, width: u16, height: u16) -> Vec<String> {
    let buffer = preview_of(app, transcript_lines(), width, height);
    (1..height - 1).map(|y| row_text(&buffer, y, width)).collect()
}

fn content_height(width: u16) -> usize {
    wrapped_text_rows(&transcript_lines(), width - 2)
}

/// Draw the whole board, its list at `list_width`.
fn board_at(app: &mut App, width: u16, height: u16, list_width: u16) -> Buffer {
    let area = screen(width, height);
    let board: Board = lay_out(app, area, list_width);
    let (_, inner, _) = preview_areas(app, board.preview);
    let query = app.query.clone();
    let transcript = if app.sessions.is_empty() {
        measured(vec![], inner.width, &query, None)
    } else {
        measured(transcript_lines(), inner.width, &query, None)
    };
    let tail = reply_lines(app);
    let draws = render(app, area, &board, &transcript, &tail);
    painted(&draws, width, height)
}

fn drawn_board(app: &mut App, width: u16, height: u16) -> Buffer {
    board_at(app, width, height, width / 2)
}

fn drawn_list(app: &mut App, width: u16, height: u16) -> Buffer {
    let draws = render_list(app, screen(width, height));
    painted(&draws, width, height)
}

// --- the layout ---------------------------------------------------------------

#[test]
fn compose_docks_on_a_tall_board_and_bottom_bars_on_a_short_one() {
    assert!(!compose_uses_bottom_bar(false, 8));
    assert!(!compose_uses_bottom_bar(false, 40));
    let just_docks = COMPOSE_MIN_DOCK_HEIGHT + BOARD_CHROME_ROWS + 2;
    assert!(
        !compose_uses_bottom_bar(true, just_docks),
        "just tall enough must dock, not bottom-bar"
    );
    assert!(!compose_uses_bottom_bar(true, just_docks + 6), "taller still docks");
    assert!(
        compose_uses_bottom_bar(true, just_docks - 1),
        "one row short of docking must bottom-bar"
    );
    assert!(compose_uses_bottom_bar(true, 8), "a tiny board bottom-bars");
}

#[test]
fn preview_compose_split_reserves_the_zone_only_when_docking() {
    let pane = Rect { x: 0, y: 0, width: 40, height: 20 };
    let (b0, t0) = preview_split(pane, false);
    let (b1, t1, c1) = preview_compose_split(pane, false, 0);
    assert_eq!((b1, t1), (b0, t0), "no dock must not disturb the split");
    assert_eq!(c1.height, 0, "no compose rect when not docking");

    let zone = 5u16;
    let (_b, transcript, compose) = preview_compose_split(pane, false, zone);
    assert_eq!(compose.height, zone);
    assert_eq!(
        t0.height,
        transcript.height + compose.height,
        "the compose zone is taken FROM the transcript, not added beside it"
    );
    assert_eq!(
        compose.y,
        transcript.y + transcript.height,
        "compose sits directly below the (shrunk) transcript"
    );
    assert_eq!(transcript.y, t0.y, "the transcript still starts where it did");
    assert_eq!(compose.width, transcript.width);
}

#[test]
fn the_docked_compose_zone_is_laid_out_at_the_pane_inner_width() {
    let pane = Rect { x: 3, y: 1, width: 40, height: 20 };
    for has_banner in [false, true] {
        let (_, _, compose) = preview_compose_split(pane, has_banner, COMPOSE_MAX_ZONE_HEIGHT);
        assert_eq!(
            compose.width,
            preview_inner(pane).width,
            "the compose rect must be the pane's INNER width (banner: {has_banner})"
        );
        assert_eq!(
            compose.width,
            pane.width - 2,
            "which is the pane's own border inset, not its outer width"
        );
        assert_eq!(
            compose.x,
            preview_inner(pane).x,
            "and it must start inside the pane's left border"
        );
    }
}

fn bordered_inner(area: Rect) -> Rect {
    let inner = ratatui::widgets::Block::bordered().title(" preview ").inner(area_of(area));
    Rect { x: inner.x, y: inner.y, width: inner.width, height: inner.height }
}

fn is_empty(rect: Rect) -> bool {
    rect.width == 0 || rect.height == 0
}

#[test]
fn preview_split_reserves_one_row_for_a_banner_and_nothing_for_a_banner_less_pane() {
    let area = Rect { x: 37, y: 4, width: 43, height: 16 };
    let was = bordered_inner(area);

    let (banner, transcript) = preview_split(area, false);
    assert_eq!(
        transcript, was,
        "a banner-less pane must hand the transcript the whole inner rect, exactly as before"
    );
    assert!(is_empty(banner), "a banner-less pane must reserve no banner row");

    let (banner, transcript) = preview_split(area, true);
    assert_eq!(
        banner,
        Rect { height: PREVIEW_BANNER_ROWS, ..was },
        "the banner pins to the pane's FIRST inner row"
    );
    assert_eq!(
        transcript,
        Rect {
            y: was.y + PREVIEW_BANNER_ROWS,
            height: was.height - PREVIEW_BANNER_ROWS,
            ..was
        },
        "the transcript starts one row lower and gives that row back"
    );
    assert_eq!(
        transcript.width, was.width,
        "the split is VERTICAL only: a banner and a banner-less pane share \
         one width, and therefore one width-scoped preview cache"
    );
}

#[test]
fn preview_split_degrades_to_banner_only_rather_than_overlapping_in_a_short_pane() {
    let area = Rect { x: 0, y: 0, width: 20, height: 3 };
    let (banner, transcript) = preview_split(area, true);
    assert_eq!(banner.height, PREVIEW_BANNER_ROWS);
    assert_eq!(transcript.height, 0);
    assert_eq!(
        transcript.y,
        banner.y + banner.height,
        "the transcript must start BELOW the banner even with no room left"
    );

    for height in [0u16, 1, 2] {
        let (banner, transcript) = preview_split(Rect { height, ..area }, true);
        assert!(
            is_empty(banner) && is_empty(transcript),
            "a pane of height {height} has no inner rows to split"
        );
    }
}

#[test]
fn centered_rect_centers_and_clamps_to_the_area() {
    let area = Rect { x: 0, y: 0, width: 100, height: 40 };
    let r = centered_rect(area, 62, 7);
    assert_eq!((r.width, r.height), (62, 7));
    assert_eq!(r.x, (100 - 62) / 2);
    assert_eq!(r.y, (40 - 7) / 2);

    let tiny = Rect { x: 0, y: 0, width: 20, height: 3 };
    let clamped = centered_rect(tiny, 62, 7);
    assert_eq!((clamped.width, clamped.height), (20, 3));
    assert_eq!((clamped.x, clamped.y), (0, 0));
}

fn reply_to(id: &str, rows: usize) -> ComposeState {
    ComposeState {
        target: ComposeTarget::Reply { session_id: id.to_string(), stop_job: None },
        screen_rows: rows,
    }
}

#[test]
fn a_board_with_room_gives_every_line_its_row_and_the_rest_to_the_body() {
    for height in 3u16..60 {
        for composing in [false, true] {
            let mut app = sample_board();
            if composing {
                app.compose = Some(reply_to("sess-normal-1", 4));
            }
            let area = Rect { x: 2, y: 1, width: 80, height };
            let bar = compose_uses_bottom_bar(composing, height);
            let zone = if bar { 6 } else { 0 };
            if height < 3 + zone {
                continue;
            }
            let board = lay_out(&app, area, 30);
            let body = height - 3 - zone;
            assert_eq!(board.header, Rect { height: 1, ..area });
            assert_eq!(board.body, Rect { y: 2, height: body, ..area });
            let expected_bar =
                if bar { Some(Rect { y: 2 + body, height: zone, ..area }) } else { None };
            assert_eq!(board.compose_bar, expected_bar);
            assert_eq!(board.search, Rect { y: area.y + height - 2, height: 1, ..area });
            assert_eq!(board.help, Rect { y: area.y + height - 1, height: 1, ..area });
            assert_eq!(board.list, Rect { width: 30, ..board.body });
            assert_eq!(board.preview, Rect { x: 32, width: 50, ..board.body });
        }
    }
}

#[test]
fn the_body_is_split_at_every_width_of_the_list() {
    let app = sample_board();
    for width in [1u16, 7, 40, 201] {
        for list_width in 0..=width {
            let board = lay_out(&app, screen(width, 20), list_width);
            assert_eq!(board.list, Rect { width: list_width, ..board.body });
            assert_eq!(
                board.preview,
                Rect { x: list_width, width: width - list_width, ..board.body }
            );
        }
    }
    let mut hidden = sample_board();
    hidden.show_preview = false;
    let board = lay_out(&hidden, screen(40, 20), 10);
    assert_eq!(board.list, board.body);
    assert_eq!(board.preview, Rect::none());
}

#[test]
fn a_board_without_room_shares_out_what_it_has() {
    for height in 0u16..16 {
        for rows in [None, Some(1), Some(4), Some(6), Some(30)] {
            let mut app = sample_board();
            app.compose = rows.map(|rows| reply_to("sess-normal-1", rows));
            for (x, y) in [(0u16, 0u16), (7, 3), (65_000, 65_500)] {
                let area = Rect { x, y, width: 20, height };
                let board = lay_out(&app, area, 5);
                let bar = compose_uses_bottom_bar(rows.is_some(), height);
                assert_eq!(board.compose_bar.is_some(), bar);
                let mut parts = vec![board.header, board.body];
                parts.extend(board.compose_bar);
                parts.extend([board.search, board.help]);
                let mut next = y;
                for part in &parts {
                    assert_eq!((part.x, part.width), (x, 20));
                    assert_eq!(part.y, next, "{board:?} on {area:?}");
                    next += part.height;
                }
                assert_eq!(next, y + height, "the rows end where the area does");
                for line in [board.header, board.search, board.help] {
                    assert!(line.height <= 1);
                }
                let zone = if bar { compose_zone_height(&app) } else { 0 };
                assert!(board.compose_bar.map_or(0, |bar| bar.height) <= zone);
                if height <= 3 + zone {
                    assert_eq!(board.body.height, 0, "the body gives way first");
                }
            }
        }
    }
}

#[test]
fn a_list_wider_than_the_body_takes_the_whole_of_it() {
    let app = sample_board();
    for width in [0u16, 1, 7, 40] {
        for list_width in [width, width + 1, width + 30, u16::MAX] {
            let board = lay_out(&app, screen(width, 20), list_width);
            assert_eq!(board.list, board.body);
            assert_eq!(board.preview, Rect { x: width, width: 0, ..board.body });
        }
    }
}

// --- the header ---------------------------------------------------------------

const HEADER_WIDTH: u16 = 120;

fn drawn_header(app: &App) -> String {
    let draws = render_header(app, screen(HEADER_WIDTH, 1));
    full_row_text(&painted(&draws, HEADER_WIDTH, 1), 0, HEADER_WIDTH)
}

#[test]
fn project_scope_header_names_the_resolved_project_not_the_launch_folder() {
    let mut app = sample_board();
    app.scope = Scope::Project;
    app.worktrees = WorktreeSet::from_resolved(
        vec![b"/tmp/launch".to_vec(), b"/tmp/other-wt".to_vec()],
        Some("acme/web".to_string()),
    );

    let header = drawn_header(&app);
    assert!(
        header.contains("project:acme/web"),
        "the header must name the project git resolved: {header}"
    );
    assert!(
        !header.contains("project:launch"),
        "naming the launch folder would misdescribe a cross-worktree list: {header}"
    );
}

#[test]
fn project_scope_header_falls_back_to_the_repo_root_name() {
    let mut app = sample_board();
    app.scope = Scope::Project;
    assert!(
        drawn_header(&app).contains("project:launch"),
        "an unresolved project is still named after its repo ROOT, which \
         for this plain checkout is the launch folder itself"
    );
}

#[test]
fn project_scope_header_names_the_launch_dir_when_a_resolved_set_has_no_label() {
    let mut app = sample_board();
    app.scope = Scope::Project;
    app.worktrees = WorktreeSet::from_resolved(
        vec![b"/tmp/launch".to_vec(), b"/tmp/other-wt".to_vec()],
        None,
    );
    assert!(
        !app.worktrees.is_empty(),
        "premise: membership DID resolve — this is not the unresolved case"
    );
    assert_eq!(app.worktrees.label(), None, "premise: and it resolved without a label");

    let header = drawn_header(&app);
    assert!(
        header.contains("project:launch"),
        "a resolved set with no label still names the launch dir: {header}"
    );
}

#[test]
fn project_scope_header_names_the_repo_root_not_the_worktree_launched_from() {
    let mut app = sample_board();
    app.scope = Scope::Project;
    app.launch_dir =
        b"/Volumes/Development/ilfroloff/snapback/.agents/worktrees/feature/quick-send".to_vec();
    app.repo_root = b"/Volumes/Development/ilfroloff/snapback".to_vec();
    assert!(app.worktrees.is_empty(), "premise: nothing resolved");

    let header = drawn_header(&app);
    assert!(
        header.contains("project:snapback"),
        "the header names the project, not the branch folder: {header}"
    );
    assert!(
        !header.contains("project:quick-send"),
        "naming the branch would misdescribe a whole-project list: {header}"
    );
}

#[test]
fn a_path_without_a_spelling_is_repaired_in_the_header() {
    let mut app = sample_board();
    app.scope = Scope::Project;
    app.launch_dir = b"/tmp/\xff".to_vec();
    app.repo_root = b"/tmp/\xff".to_vec();
    app.worktrees = WorktreeSet::from_resolved(vec![b"/any/root".to_vec()], None);
    assert_eq!(project_name(&app), "\u{FFFD}");
    assert!(drawn_header(&app).contains("project:\u{FFFD}"));
    app.scope = Scope::CurrentFolder;
    assert!(drawn_header(&app).contains("folder:\u{FFFD}"));
}

#[test]
fn the_header_counts_what_is_shown_and_what_is_hidden() {
    let mut app = sample_board();
    app.counts = SessionCounts { visible: 5, total: 30, hidden: 0 };
    let header = drawn_header(&app);
    assert!(header.contains("all folders  ·  search: name  ·  5 / 30 sessions"), "{header}");
    assert!(!header.contains("hidden"), "{header}");
    assert!(header.ends_with("dev+abc1234"), "{header}");

    app.counts.hidden = 2;
    app.search_mode = SearchMode::NameAndContent;
    let header = drawn_header(&app);
    assert!(header.contains("search: name+content  ·  5 / 30 sessions  ·  2 hidden"), "{header}");
}

// --- the search line and the help line ------------------------------------------

const CURSOR_QUERY: &str = "needle";
const SEARCH_LINE_WIDTH: u16 = 40;

fn cursor_board(tick: u64) -> App {
    let mut app = board_of(vec![]);
    app.query = CURSOR_QUERY.to_string();
    app.tick = tick;
    app
}

fn drawn_search(app: &App, width: u16) -> Buffer {
    painted(&render_search(app, screen(width, 1)), width, 1)
}

fn cursor_column(buffer: &Buffer, width: u16) -> u16 {
    let query_x = column_of(buffer, 0, width, CURSOR_QUERY);
    query_x + u16::try_from(CURSOR_QUERY.chars().count()).expect("a query shorter than a row")
}

#[test]
fn render_search_draws_the_cursor_in_the_pulses_visible_phase() {
    let app = cursor_board(0);
    assert!(blink_visible(app.tick), "tick 0 must be a visible phase");

    let buffer = drawn_search(&app, SEARCH_LINE_WIDTH);
    let x = cursor_column(&buffer, SEARCH_LINE_WIDTH);
    assert_eq!(
        buffer.cell((x, 0)).expect("the cursor column must be inside the drawn line").symbol(),
        SEARCH_CURSOR,
        "the cursor glyph must be drawn right after the query in the visible phase; \
         drawn line: {:?}",
        full_row_text(&buffer, 0, SEARCH_LINE_WIDTH)
    );
}

#[test]
fn render_search_hides_the_cursor_in_the_pulses_hidden_phase() {
    let app = cursor_board(BLINK_TICKS);
    assert!(!blink_visible(app.tick), "tick {BLINK_TICKS} must be a hidden phase");

    let buffer = drawn_search(&app, SEARCH_LINE_WIDTH);
    let x = cursor_column(&buffer, SEARCH_LINE_WIDTH);
    assert_eq!(
        buffer.cell((x, 0)).expect("the cursor column must be inside the drawn line").symbol(),
        SEARCH_CURSOR_HIDDEN,
        "the cursor's column must be BLANK in the hidden phase; drawn line: {:?}",
        full_row_text(&buffer, 0, SEARCH_LINE_WIDTH)
    );
}

#[test]
fn render_search_keeps_the_query_column_stable_across_both_pulse_phases() {
    let columns: Vec<u16> = [0, BLINK_TICKS]
        .into_iter()
        .map(|tick| {
            let buffer = drawn_search(&cursor_board(tick), SEARCH_LINE_WIDTH);
            column_of(&buffer, 0, SEARCH_LINE_WIDTH, CURSOR_QUERY)
        })
        .collect();
    assert_eq!(
        columns[0], columns[1],
        "the query must start at the SAME column in the visible (tick 0, col {}) \
         and hidden (tick {BLINK_TICKS}, col {}) phases",
        columns[0], columns[1]
    );
}

const FULL_BOARD_SIZE: (u16, u16) = (80, 17);

#[test]
fn a_pending_chord_takes_over_the_help_line_with_the_which_key_hint() {
    let (width, height) = FULL_BOARD_SIZE;
    let mut app = board_of(vec![]);
    app.pending_chord = true;

    let buffer = drawn_board(&mut app, width, height);
    let text = full_row_text(&buffer, height - 1, width);
    assert!(
        text.contains(&chord_hint(false)),
        "a pending chord must draw the which-key hint on the help line; drawn: {text:?}"
    );
    for needle in [
        "x hide",
        "d delete row/lineage",
        "h show/hide hidden",
        "r reload",
        "Esc cancel",
    ] {
        assert!(
            text.contains(needle),
            "the which-key hint must list {needle:?}; drawn: {text:?}"
        );
    }
}

fn drawn_help(app: &App, width: u16) -> String {
    full_row_text(&painted(&render_help(app, screen(width, 1)), width, 1), 0, width)
}

#[test]
fn the_help_line_shows_the_first_of_what_it_could_show() {
    let mut app = sample_board();
    assert!(drawn_help(&app, 240).starts_with("↑↓/jk move"));
    app.compose = Some(reply_to("sess-normal-1", 1));
    assert!(drawn_help(&app, 240).starts_with("Enter send"));
    app.status = Some("  refused:\n  still\trunning ".to_string());
    assert_eq!(drawn_help(&app, 240), "refused: still running");
    app.pending_chord = true;
    assert_eq!(drawn_help(&app, 240), chord_hint(false));
    app.hidden_ids.push("sess-normal-1".to_string());
    assert_eq!(drawn_help(&app, 240), chord_hint(true));
}

#[test]
fn empty_enter_nudge_yields_back_the_compose_hint_on_the_help_line() {
    let (width, height) = (60u16, 30u16);
    let nudge = "type a message first";
    let mut app = sample_board();
    app.compose = Some(reply_to("sess-normal-1", 1));
    assert!(
        !compose_uses_bottom_bar(app.compose.is_some(), height),
        "this board must dock so the help line is the ordinary one"
    );

    app.status = Some(nudge.to_string());
    let nudge_row = full_row_text(&board_at(&mut app, width, height, 30), height - 1, width);
    assert!(
        nudge_row.contains(nudge),
        "the help line must show the empty-buffer nudge: {nudge_row:?}"
    );
    assert!(
        !nudge_row.contains("Enter send"),
        "the nudge must hide the compose hint: {nudge_row:?}"
    );

    app.status = None;
    let hint_row = full_row_text(&board_at(&mut app, width, height, 30), height - 1, width);
    assert!(
        hint_row.contains("Enter send"),
        "the help line must show the compose hint again: {hint_row:?}"
    );
    assert!(
        !hint_row.contains(nudge),
        "the expired nudge must not linger: {hint_row:?}"
    );
}

// --- the list -------------------------------------------------------------------

#[test]
fn a_list_without_rows_says_where_the_scope_key_leads() {
    let mut app = board_of(vec![]);
    app.scope = Scope::CurrentFolder;
    let buffer = drawn_list(&mut app, 60, 5);
    assert_eq!(row_text(&buffer, 1, 60), "No sessions in this folder.");
    assert_eq!(
        row_text(&buffer, 2, 60),
        "Press Ctrl-A to widen to this project's worktrees."
    );
    let cell = buffer.cell((1, 1)).expect("a cell inside the border");
    assert!(cell.modifier.contains(ratatui::style::Modifier::DIM));
}

#[test]
fn a_head_names_its_repository_and_its_branch() {
    let mut app = sample_board();
    let buffer = drawn_list(&mut app, 60, 5);
    assert_eq!(row_text(&buffer, 1, 60).trim(), "▌ project-alpha  (main)");
    assert!(row_text(&buffer, 2, 60).starts_with("›   --  sess-normal-1"));
}

#[test]
fn what_the_query_matched_in_a_label_is_marked() {
    let mut app = sample_board();
    app.sessions[0].matched = [0, 1, 2, 3].into_iter().collect();
    let marked = |buffer: &Buffer| -> String {
        (0..60)
            .filter_map(|x| buffer.cell((x, 2)))
            .filter(|cell| cell.fg == ratatui::style::Color::LightBlue)
            .map(|cell| cell.symbol().to_string())
            .collect()
    };
    assert_eq!(marked(&drawn_list(&mut app, 60, 5)), "", "no query, no marks");
    app.query = "sess".to_string();
    assert_eq!(marked(&drawn_list(&mut app, 60, 5)), "sess");
}

struct DrawnBadge {
    row: String,
    dot_fg: ratatui::style::Color,
    label: String,
    label_cells: Vec<(ratatui::style::Color, ratatui::style::Modifier)>,
}

fn drawn_badges(buffer: &Buffer, width: u16, height: u16) -> Vec<DrawnBadge> {
    let mut badges = Vec::new();
    for y in 0..height {
        let Some(dot_x) = (0..width).find(|&x| {
            buffer
                .cell((x, y))
                .is_some_and(|cell| cell.symbol() == BADGE_DOT || cell.symbol() == BADGE_NEEDS_INPUT)
        }) else {
            continue;
        };
        let dot = buffer.cell((dot_x, y)).expect("the dot cell was just located in this buffer");
        let mut label = String::new();
        let mut label_cells = Vec::new();
        for x in (dot_x + 2)..width {
            let Some(cell) = buffer.cell((x, y)) else {
                break;
            };
            if cell.symbol() == " " {
                break;
            }
            label.push_str(cell.symbol());
            label_cells.push((cell.fg, cell.modifier));
        }
        badges.push(DrawnBadge {
            row: row_text(buffer, y, width),
            dot_fg: dot.fg,
            label,
            label_cells,
        });
    }
    badges
}

const BADGE_CASES: [(&str, &str, Option<&str>, Color, bool); 9] = [
    ("blocked", "blocked", None, Color::Yellow, false),
    ("waiting", "waiting", None, Color::Yellow, false),
    ("idle", "idle", None, Color::Green, false),
    ("working", "working", None, Color::Gray, true),
    ("busy", "busy", None, Color::Gray, true),
    ("interrupted", "working", Some("idle"), Color::Gray, false),
    ("done", "done", None, Color::Green, false),
    ("stopped", "stopped", None, Color::DarkGray, false),
    ("failed", "failed", None, Color::DarkGray, false),
];

fn badge_board() -> App {
    let sessions: Vec<Session> =
        BADGE_CASES.iter().map(|case| session(&format!("sess-{}", case.0))).collect();
    let mut app = board_of(sessions);
    for (label, state, status, _, _) in BADGE_CASES {
        app.reported
            .push((format!("sess-{label}"), agent(AgentKind::Background, Some(state), status)));
    }
    app
}

const BADGE_BOARD_SIZE: (u16, u16) = (60, 14);

#[test]
fn render_list_colors_the_whole_badge_by_state() {
    let mut app = badge_board();
    app.tick = 0;
    assert!(blink_visible(app.tick), "tick 0 must be the ON phase");

    let (width, height) = BADGE_BOARD_SIZE;
    let buffer = drawn_list(&mut app, width, height);
    let badges = drawn_badges(&buffer, width, height);
    assert_eq!(
        badges.len(),
        BADGE_CASES.len(),
        "each reported session must draw exactly one badge dot: {:?}",
        badges.iter().map(|b| &b.row).collect::<Vec<_>>()
    );

    for (label, _, _, color, _) in BADGE_CASES {
        let badge = badges
            .iter()
            .find(|badge| badge.row.contains(&format!("sess-{label}")))
            .unwrap_or_else(|| panic!("a badge row for the {label:?} session"));
        assert_eq!(
            badge.label, "bg",
            "the dot must be followed by the kind label ({label:?} row: {:?})",
            badge.row
        );
        assert!(
            !badge.label_cells.is_empty(),
            "the {label:?} label must have drawn cells to assert over"
        );
        for (fg, modifier) in &badge.label_cells {
            assert_eq!(*fg, color_of(color), "the {label:?} kind label must be {color:?}");
            assert!(
                modifier.contains(ratatui::style::Modifier::BOLD),
                "the {label:?} kind label must survive to the buffer BOLD, got {modifier:?}"
            );
        }
        let expected = if matches!(label, "blocked" | "waiting") { Color::Red } else { color };
        assert_eq!(
            badge.dot_fg,
            color_of(expected),
            "the {label:?} dot must be {expected:?}, got {:?}",
            badge.dot_fg
        );
    }
}

#[test]
fn render_list_makes_the_needs_input_qualifier_prominent() {
    let mut app = badge_board();
    app.tick = 0;
    let (width, height) = BADGE_BOARD_SIZE;
    let buffer = drawn_list(&mut app, width, height);

    let needs_input = row_of(&buffer, width, height, "sess-blocked");
    let phrase = "needs input";
    let phrase_x = column_of(&buffer, needs_input, width, phrase);
    for (i, ch) in phrase.chars().enumerate() {
        let cell = buffer
            .cell((
                phrase_x + u16::try_from(i).expect("a phrase shorter than a row"),
                needs_input,
            ))
            .expect("a drawn `needs input` cell");
        assert_eq!(cell.symbol(), ch.to_string());
        assert_eq!(cell.fg, ratatui::style::Color::Yellow);
        assert!(cell.modifier.contains(ratatui::style::Modifier::BOLD));
        assert!(
            !cell.modifier.contains(ratatui::style::Modifier::DIM),
            "`needs input` must NEVER be dim"
        );
    }

    let idle = row_of(&buffer, width, height, "sess-idle");
    let idle_qualifier = "idle";
    let idle_x = column_of(&buffer, idle, width, idle_qualifier);
    for i in 0..idle_qualifier.chars().count() {
        let cell = buffer
            .cell((
                idle_x + u16::try_from(i).expect("a qualifier shorter than a row"),
                idle,
            ))
            .expect("a drawn `idle` qualifier cell");
        assert!(
            cell.modifier.contains(ratatui::style::Modifier::DIM),
            "a non-NeedsInput qualifier stays DIM, exactly as before: {:?}",
            cell.modifier
        );
        assert!(
            !cell.modifier.contains(ratatui::style::Modifier::BOLD),
            "and it must NOT draw at badge weight — only NeedsInput does"
        );
    }
}

#[test]
fn render_list_marks_needs_input_rows_with_a_bang() {
    let (width, height) = BADGE_BOARD_SIZE;
    let badge_cell = |tick: u64, label: &str| -> Cell {
        let mut app = badge_board();
        app.tick = tick;
        let buffer = drawn_list(&mut app, width, height);
        let y = row_of(&buffer, width, height, label);
        let x = (0..width)
            .find(|&x| {
                buffer.cell((x, y)).is_some_and(|cell| {
                    cell.symbol() == BADGE_NEEDS_INPUT || cell.symbol() == BADGE_DOT
                })
            })
            .unwrap_or_else(|| panic!("a badge glyph must be drawn on the {label:?} row"));
        buffer.cell((x, y)).expect("the badge cell was just located in this buffer").clone()
    };

    for label in ["sess-blocked", "sess-waiting"] {
        let on = badge_cell(0, label);
        assert_eq!(on.symbol(), BADGE_NEEDS_INPUT);
        assert_eq!(on.fg, ratatui::style::Color::Red);
        assert!(on.modifier.contains(ratatui::style::Modifier::BOLD));
        let off = badge_cell(BLINK_TICKS, label);
        assert_eq!(
            on, off,
            "NeedsInput is steady, so its `!` badge cell must be IDENTICAL in both pulse phases"
        );
    }

    for label in ["sess-idle", "sess-working", "sess-interrupted", "sess-done"] {
        assert_eq!(
            badge_cell(0, label).symbol(),
            BADGE_DOT,
            "the {label:?} row is not NeedsInput, so it must keep the `●` dot"
        );
    }
}

#[test]
fn render_list_draws_every_badge_dot_in_both_pulse_phases() {
    let (width, height) = BADGE_BOARD_SIZE;
    for (tick, on) in [(0, true), (BLINK_TICKS, false)] {
        let mut app = badge_board();
        app.tick = tick;
        assert_eq!(blink_visible(app.tick), on);
        let buffer = drawn_list(&mut app, width, height);
        let drawn: Vec<String> =
            drawn_badges(&buffer, width, height).into_iter().map(|badge| badge.row).collect();
        for (label, _, _, _, _) in BADGE_CASES {
            let row = format!("sess-{label}");
            assert!(
                drawn.iter().any(|drawn_row| drawn_row.contains(&row)),
                "at tick {tick} the {label:?} dot must STILL be drawn; drawn rows: {drawn:?}"
            );
        }
    }
}

#[test]
fn render_list_pulses_only_an_active_dots_color() {
    let (width, height) = BADGE_BOARD_SIZE;
    let phase = |tick: u64| -> HashMap<String, ratatui::style::Color> {
        let mut app = badge_board();
        app.tick = tick;
        let buffer = drawn_list(&mut app, width, height);
        let mut found = HashMap::new();
        for badge in drawn_badges(&buffer, width, height) {
            for (label, _, _, _, _) in BADGE_CASES {
                if badge.row.contains(&format!("sess-{label}")) {
                    found.insert(label.to_string(), badge.dot_fg);
                }
            }
        }
        found
    };
    let on = phase(0);
    let off = phase(BLINK_TICKS);

    for (label, _, _, color, pulses) in BADGE_CASES {
        let on_fg = on[label];
        let off_fg = off[label];
        let glyph_base = if matches!(label, "blocked" | "waiting") { Color::Red } else { color };
        assert_eq!(
            on_fg,
            color_of(glyph_base),
            "the {label:?} dot must carry its base glyph color in the ON phase"
        );
        if pulses {
            assert_ne!(on_fg, off_fg, "the {label:?} dot is ACTIVE, so its color MUST change");
            assert_eq!(
                off_fg,
                color_of(pulse_color(color)),
                "the {label:?} dot's OFF phase must be its declared dim partner"
            );
        } else {
            assert_eq!(on_fg, off_fg, "the {label:?} bucket is at rest, so its dot is steady");
        }
    }
}

#[test]
fn render_list_never_pulses_the_kind_label() {
    let (width, height) = BADGE_BOARD_SIZE;
    let mut app = badge_board();
    app.tick = BLINK_TICKS;
    assert!(!blink_visible(app.tick), "tick {BLINK_TICKS} must be the OFF phase");
    let buffer = drawn_list(&mut app, width, height);
    let badges = drawn_badges(&buffer, width, height);

    let mut pulsing = 0;
    for (label, _, _, color, pulses) in BADGE_CASES {
        let badge = badges
            .iter()
            .find(|badge| badge.row.contains(&format!("sess-{label}")))
            .unwrap_or_else(|| panic!("a badge row for the {label:?} session"));
        assert_eq!(badge.label, "bg");
        assert!(!badge.label_cells.is_empty());
        for (fg, _) in &badge.label_cells {
            assert_eq!(*fg, color_of(color), "the {label:?} kind label NEVER pulses");
        }
        if !pulses {
            continue;
        }
        pulsing += 1;
        assert_eq!(badge.dot_fg, color_of(pulse_color(color)));
        for (fg, _) in &badge.label_cells {
            assert_ne!(
                badge.dot_fg, *fg,
                "the {label:?} dot must have pulsed AWAY from its label's steady color"
            );
        }
    }
    assert!(pulsing > 0, "at least one bucket must pulse");
}

fn row_has_glyph(buffer: &Buffer, y: u16, width: u16, glyph: &str) -> bool {
    (0..width).any(|x| buffer.cell((x, y)).is_some_and(|cell| cell.symbol() == glyph))
}

fn dot_fg_on_row(buffer: &Buffer, y: u16, width: u16) -> ratatui::style::Color {
    let x = (0..width)
        .find(|&x| buffer.cell((x, y)).is_some_and(|cell| cell.symbol() == BADGE_DOT))
        .unwrap_or_else(|| panic!("a badge dot must be drawn on row {y} in EVERY phase"));
    buffer.cell((x, y)).expect("the dot cell was just located in this buffer").fg
}

#[test]
fn the_search_cursor_and_an_active_badge_dot_pulse_in_phase() {
    let (width, height) = FULL_BOARD_SIZE;
    for (tick, on) in [(0, true), (BLINK_TICKS, false)] {
        let mut app = badge_board();
        app.tick = tick;
        let buffer = drawn_board(&mut app, width, height);
        let search_y = height - 2;
        let cursor_drawn = row_has_glyph(&buffer, search_y, width, SEARCH_CURSOR);
        let working_y = row_of(&buffer, width, height, "sess-working");
        let dot_fg = dot_fg_on_row(&buffer, working_y, width);
        assert_eq!(cursor_drawn, on, "{:?}", full_row_text(&buffer, search_y, width));
        let dot_on = dot_fg == color_of(badge_color(&background("working")));
        assert_eq!(dot_on, on, "{:?}", row_text(&buffer, working_y, width));
        assert_eq!(
            cursor_drawn, dot_on,
            "the cursor and the active dot must share one phase at tick {tick}"
        );
    }
}

// --- the pulse beside a link ------------------------------------------------------

const FIXTURE_URL: &str = "https://docs.rs/ratatui-markdown/latest/ratatui_markdown/";
const LINKED_BOARD_SIZE: (u16, u16) = (120, 40);

fn linked_label_board() -> App {
    let cases: [(&str, &str, &str); 5] = [
        (
            "sess-url",
            "blocked",
            "Let's evaluate https://docs.rs/ratatui-markdown/latest/ratatui_markdown/ \
             rather than rolling our own renderer",
        ),
        ("sess-working", "working", "Refactor the JSONL parser"),
        ("sess-done", "done", "Ship the release workflow"),
        ("sess-blocked", "blocked", "Waiting on the webhook fix"),
        ("sess-idle", "idle", "Audit the terminal restore path"),
    ];
    let mut sessions = Vec::new();
    let mut reported = Vec::new();
    for (offset, (id, state, label)) in cases.into_iter().enumerate() {
        let mut one = session(id);
        one.label = label.to_string();
        one.timestamp = at(1_752_000_000
            + i64::try_from(offset).expect("a small fixture index") * 3_600);
        one.matched = positions(label, "the");
        reported.push((id.to_string(), background(state)));
        sessions.push(one);
    }
    let mut app = board_of(sessions);
    app.reported = reported;
    app.query = "the".to_string();
    app
}

fn url_on_the_pulsing_row() -> App {
    let mut app = linked_label_board();
    let working = app
        .sessions
        .iter_mut()
        .find(|s| s.session_id == "sess-working")
        .expect("the pulsing fixture row");
    working.label = format!("Assess {FIXTURE_URL} rather than rolling our own");
    app.query = String::new();
    app
}

fn linked_board_at(tick: u64) -> Buffer {
    let (width, height) = LINKED_BOARD_SIZE;
    let mut app = url_on_the_pulsing_row();
    app.tick = tick;
    drawn_board(&mut app, width, height)
}

#[test]
fn two_renders_at_the_same_tick_paint_identical_buffers() {
    let (width, height) = LINKED_BOARD_SIZE;
    let mut app = linked_label_board();
    app.tick = 0;
    let first = drawn_board(&mut app, width, height);
    let second = drawn_board(&mut app, width, height);
    let changed = first.diff(&second);
    assert!(changed.is_empty(), "a same-tick re-render must not churn");
}

#[test]
fn the_pulse_changes_only_style_and_never_a_symbol_on_a_url_bearing_row() {
    let (width, height) = LINKED_BOARD_SIZE;
    let on = linked_board_at(0);
    let off = linked_board_at(BLINK_TICKS);
    let y = row_of(&on, width, height, "Assess");
    let changed: Vec<_> = on.diff(&off).into_iter().filter(|(_, cy, _)| *cy == y).collect();
    assert!(
        !changed.is_empty(),
        "the pulse must actually change SOMETHING on the URL row, or this test proves nothing"
    );
    for (x, cy, after) in changed {
        let before = on.cell((x, cy)).expect("a changed cell must exist in both buffers");
        assert_eq!(
            before.symbol(),
            after.symbol(),
            "the pulse may only restyle cells, and not rewrite ({x},{cy}); row: {:?}",
            row_text(&on, y, width).trim_end()
        );
    }
}

#[test]
fn the_pulse_never_rewrites_a_url_cell_on_a_pulsing_row() {
    let (width, height) = LINKED_BOARD_SIZE;
    let on = linked_board_at(0);
    let off = linked_board_at(BLINK_TICKS);
    let y = row_of(&on, width, height, "Assess");
    let url_x = column_of(&on, y, width, "https");
    let changed: Vec<_> = on.diff(&off).into_iter().filter(|(_, cy, _)| *cy == y).collect();
    assert!(!changed.is_empty(), "the pulse must actually change SOMETHING on the URL row");
    assert!(
        changed.iter().all(|(x, _, _)| *x < url_x),
        "the pulse must never rewrite a cell of the URL text itself (URL starts at x={url_x})"
    );
}

// --- lineages -----------------------------------------------------------------------

const LINEAGE_LABEL: &str = "I see kinda double-sessions in the sessions list";
const LONE_LABEL: &str = "I kinda don't like style of the README";
const BG_ID: &str = "2265afd8-3c03-466b-92fd-977c716018f3";
const ANCESTOR_ID: &str = "e4a59d02-1111-2222-3333-444444444444";
const LONE_ID: &str = "c6ce9d37-5555-6666-7777-888888888888";
const BG_TS: i64 = 200;
const ANCESTOR_TS: i64 = 100;
const LONE_TS: i64 = 50;
const BG_MSGS: usize = 171;
const ANCESTOR_MSGS: usize = 6;
const LONE_MSGS: usize = 42;

fn at(unix_secs: i64) -> Option<time::OffsetDateTime> {
    Some(time::OffsetDateTime::from_unix_timestamp(unix_secs).expect("a valid test timestamp"))
}

fn lineage_session(id: &str, label: &str, unix_secs: i64, msg_count: usize) -> Session {
    Session {
        session_id: id.to_string(),
        label: label.to_string(),
        timestamp: at(unix_secs),
        msg_count,
        matched: HashSet::new(),
    }
}

fn lineage_sessions() -> Vec<Session> {
    vec![
        lineage_session(BG_ID, LINEAGE_LABEL, BG_TS, BG_MSGS),
        lineage_session(ANCESTOR_ID, LINEAGE_LABEL, ANCESTOR_TS, ANCESTOR_MSGS),
        lineage_session(LONE_ID, LONE_LABEL, LONE_TS, LONE_MSGS),
    ]
}

fn head_row() -> Row {
    Row::Group { repo: "project-alpha".to_string(), branch: "main".to_string() }
}

/// The ancestor folded away behind its head.
fn lineage_board() -> App {
    let mut app = board_of(lineage_sessions());
    app.rows = vec![
        head_row(),
        Row::Session { index: 0, hidden: 1, child: false },
        plain_row(2),
    ];
    app
}

/// The ancestor on a row below its head.
fn expanded_board() -> App {
    let mut app = board_of(lineage_sessions());
    app.rows = vec![
        head_row(),
        plain_row(0),
        Row::Session { index: 1, hidden: 0, child: true },
        plain_row(2),
    ];
    app
}

const LINEAGE_BOARD_SIZE: (u16, u16) = (100, 8);
const LINEAGE_NARROW_WIDTH: u16 = 40;

#[test]
fn render_list_marks_a_folded_head_with_a_dim_hidden_count() {
    let mut app = lineage_board();
    let (width, height) = LINEAGE_BOARD_SIZE;
    let buffer = drawn_list(&mut app, width, height);
    let head = row_of(&buffer, width, height, LINEAGE_LABEL);
    let text = row_text(&buffer, head, width);
    assert!(
        text.contains("(+1)"),
        "the folded head must wear the count of what it stands for: {text:?}"
    );
    let x = column_of(&buffer, head, width, "(+1)");
    for (i, ch) in "(+1)".chars().enumerate() {
        let cell = buffer
            .cell((x + u16::try_from(i).expect("a marker shorter than a row"), head))
            .expect("a drawn marker cell");
        assert_eq!(cell.symbol(), ch.to_string());
        assert!(
            cell.modifier.contains(ratatui::style::Modifier::DIM),
            "the marker is a dim footnote on the row, not a second label"
        );
    }
}

#[test]
fn render_list_keeps_the_hidden_count_when_the_pane_is_too_narrow_for_the_label() {
    let mut app = lineage_board();
    let (_, height) = LINEAGE_BOARD_SIZE;
    let width = LINEAGE_NARROW_WIDTH;
    let buffer = drawn_list(&mut app, width, height);
    let head = row_of(&buffer, width, height, "(+1)");
    let text = row_text(&buffer, head, width);
    assert!(
        !text.contains(LINEAGE_LABEL),
        "the fixture must be too narrow for the whole label: {text:?}"
    );
    assert!(
        text.contains(LABEL_ELLIPSIS),
        "the LABEL is what gives way, and says so: {text:?}"
    );
    assert!(
        text.trim_end().ends_with("(+1)"),
        "the marker must survive a narrow pane: {text:?}"
    );
}

#[test]
fn render_list_indents_an_expanded_child_and_shows_what_differs_from_its_head() {
    let mut app = expanded_board();
    let (width, height) = LINEAGE_BOARD_SIZE;
    let buffer = drawn_list(&mut app, width, height);
    let child = row_of(&buffer, width, height, &short_id(ANCESTOR_ID));
    let child_text = row_text(&buffer, child, width);
    assert!(
        !child_text.contains(LINEAGE_LABEL),
        "a child must not repeat the label it shares with its head: {child_text:?}"
    );

    let head = row_of(&buffer, width, height, LINEAGE_LABEL);
    let head_text = row_text(&buffer, head, width);
    assert!(
        !head_text.contains("(+"),
        "an expanded head hides nothing and must not claim otherwise: {head_text:?}"
    );

    let head_ts = column_of(&buffer, head, width, &short_time(at(BG_TS)));
    let child_ts = column_of(&buffer, child, width, &short_time(at(ANCESTOR_TS)));
    assert!(
        child_ts > head_ts,
        "the child must be indented past its head ({child_ts} vs {head_ts})"
    );
    assert!(
        child_text.contains('↳'),
        "and it must say which way it hangs: {child_text:?}"
    );
    assert!(
        child_text.contains(&child_msgs(ANCESTOR_MSGS)),
        "a child must report how much conversation it holds: {child_text:?}"
    );

    let count = format!("{ANCESTOR_MSGS}{CHILD_MSGS_SUFFIX}");
    let x = column_of(&buffer, child, width, &count);
    for (i, ch) in count.chars().enumerate() {
        let cell = buffer
            .cell((x + u16::try_from(i).expect("a count shorter than a row"), child))
            .expect("a drawn count cell");
        assert_eq!(cell.symbol(), ch.to_string());
        assert!(
            cell.modifier.contains(ratatui::style::Modifier::DIM),
            "the count hangs off the id as a dim annotation"
        );
    }
}

#[test]
fn render_list_drops_a_childs_turn_count_whole_rather_than_clipping_it() {
    let mut app = expanded_board();
    let (_, height) = LINEAGE_BOARD_SIZE;
    let width = LINEAGE_NARROW_WIDTH;
    let buffer = drawn_list(&mut app, width, height);
    let id = short_id(ANCESTOR_ID);
    let child = row_of(&buffer, width, height, &id);
    let text = row_text(&buffer, child, width);
    assert!(
        !text.contains(CHILD_MSGS_SUFFIX),
        "this pane cannot afford the count, so none of it may be drawn: {text:?}"
    );
    assert!(
        text.trim_end().ends_with(&id),
        "the id must remain the row's last drawn field: {text:?}"
    );
    let unselected = " ".repeat(LIST_HIGHLIGHT_SYMBOL.chars().count());
    assert_eq!(
        text.trim_end(),
        format!("{unselected}{CHILD_GUTTER}{}  {id}", short_time(at(ANCESTOR_TS))),
    );
}

#[test]
fn render_list_degrades_a_needs_input_lineage_child_count_all_or_nothing() {
    let (_, height) = LINEAGE_BOARD_SIZE;
    let width = 56;
    let reported = || {
        vec![
            (ANCESTOR_ID.to_string(), background("blocked")),
            (BG_ID.to_string(), background("blocked")),
        ]
    };

    let mut app = expanded_board();
    app.reported = reported();
    let buffer = drawn_list(&mut app, width, height);
    let id = short_id(ANCESTOR_ID);
    let child = row_of(&buffer, width, height, &id);
    let text = row_text(&buffer, child, width);
    assert!(
        text.contains("needs input"),
        "the child must draw the `needs input` badge whose extra width squeezes the count: {text:?}"
    );
    assert!(
        !text.contains(CHILD_MSGS_SUFFIX),
        "at this width the count cannot fit beyond the wider badge: {text:?}"
    );
    assert!(
        text.trim_end().ends_with(&id),
        "with the count dropped, the id must remain the row's last drawn field: {text:?}"
    );

    let mut folded_app = lineage_board();
    folded_app.reported = reported();
    let folded = drawn_list(&mut folded_app, width, height);
    let head = row_of(&folded, width, height, "(+1)");
    assert!(
        row_text(&folded, head, width).contains("needs input"),
        "the folded NeedsInput head must draw its badge and its `(+1)` marker together"
    );
}

#[test]
fn render_list_leaves_a_row_with_no_hidden_members_exactly_as_it_was() {
    let mut app = lineage_board();
    let (width, height) = LINEAGE_BOARD_SIZE;
    let buffer = drawn_list(&mut app, width, height);
    let lone = row_of(&buffer, width, height, LONE_LABEL);
    let text = row_text(&buffer, lone, width);
    let unselected = " ".repeat(LIST_HIGHLIGHT_SYMBOL.chars().count());
    assert_eq!(
        text,
        format!("{unselected}{ROW_GUTTER}{}  {LONE_LABEL}", short_time(at(LONE_TS))),
        "a session with a lineage of one must draw exactly what it always has"
    );

    let narrow = drawn_list(&mut app, LINEAGE_NARROW_WIDTH, height);
    let lone = row_of(&narrow, LINEAGE_NARROW_WIDTH, height, "I kinda");
    let text = row_text(&narrow, lone, LINEAGE_NARROW_WIDTH);
    assert!(
        !text.contains(LABEL_ELLIPSIS),
        "a row with nothing hidden reserves nothing, so its label must be \
         clipped by the List and never fitted: {text:?}"
    );
}

#[test]
fn render_list_marks_and_dims_a_hidden_row_under_show_hidden() {
    let mut app = board_of(vec![session("sess-a-shown"), session("sess-z-hush")]);
    app.hidden_ids.push("sess-z-hush".to_string());
    let (width, height) = (40u16, 8u16);
    let buffer = drawn_list(&mut app, width, height);

    let y = row_of(&buffer, width, height, "[hidden]");
    let row = row_text(&buffer, y, width);
    assert!(
        row.contains("sess-z-hush"),
        "the [hidden] marker must sit on the hidden session's own row: {row:?}"
    );
    for x in 1..width - 1 {
        let cell = buffer.cell((x, y)).expect("a cell within the list border");
        if cell.symbol() == " " {
            continue;
        }
        assert!(
            cell.modifier.contains(ratatui::style::Modifier::DIM),
            "a revealed hidden row must be drawn DIM; cell {:?} at x={x} was {:?}",
            cell.symbol(),
            cell.modifier
        );
    }

    let sy = row_of(&buffer, width, height, "sess-a-shown");
    let sx = column_of(&buffer, sy, width, "sess-a-shown");
    let scell = buffer.cell((sx, sy)).expect("a cell within the list border");
    assert!(
        !scell.modifier.contains(ratatui::style::Modifier::DIM),
        "a non-hidden row's label must not be dimmed, got {:?}",
        scell.modifier
    );
}

#[test]
fn a_hidden_child_wears_its_mark_behind_its_count() {
    let mut app = expanded_board();
    app.hidden_ids.push(ANCESTOR_ID.to_string());
    let (width, height) = LINEAGE_BOARD_SIZE;
    let buffer = drawn_list(&mut app, width, height);
    let y = row_of(&buffer, width, height, &short_id(ANCESTOR_ID));
    assert!(row_text(&buffer, y, width).ends_with("e4a59d02  6 msgs  [hidden]"));
}

#[test]
fn the_list_starts_at_the_row_it_was_scrolled_to() {
    let ids: Vec<Session> = (0..30).map(|i| session(&format!("sess-{i:02}"))).collect();
    let mut app = board_of(ids);
    app.selected_row = Some(12);
    app.scroll = 10;
    let buffer = drawn_list(&mut app, 40, 7);
    assert!(row_text(&buffer, 1, 40).contains("sess-09"));
    assert_eq!(app.scroll, 10);
    app.scroll = 400;
    app.selected_row = Some(30);
    drawn_list(&mut app, 40, 7);
    assert_eq!(app.scroll, 30);
}

#[test]
fn a_list_keeps_its_selection_in_view() {
    let ids: Vec<Session> = (0..9).map(|i| session(&format!("sess-{i:02}"))).collect();
    let rows = board_of((0..9).map(|i| session(&format!("sess-{i:02}"))).collect()).rows.len();
    let mut app = board_of(ids);
    for height in 0u16..9 {
        for width in [0u16, 1, 2, 3, 40] {
            for scroll in 0..rows + 3 {
                for selected in (0..rows + 3).map(Some).chain([None]) {
                    app.scroll = scroll;
                    app.selected_row = selected;
                    drawn_list(&mut app, width, height);
                    let start = scroll.min(rows - 1);
                    let shown = usize::from(height.saturating_sub(2));
                    let expected = match selected {
                        None => 0,
                        Some(_) if shown == 0 || width <= 2 => start,
                        Some(index) => {
                            let row = index.min(rows - 1);
                            start.min(row).max((row + 1).saturating_sub(shown))
                        }
                    };
                    assert_eq!(
                        app.scroll, expected,
                        "{selected:?} from {scroll} on {width}x{height}"
                    );
                }
            }
        }
    }
}

#[test]
fn a_list_without_rows_stays_where_it_was() {
    let mut app = board_of(vec![]);
    app.scroll = 4;
    drawn_list(&mut app, 40, 7);
    assert_eq!(app.scroll, 4);
}

// --- the preview ----------------------------------------------------------------------

#[test]
fn a_pane_without_a_session_says_so() {
    let mut app = board_of(vec![]);
    app.preview_scroll = 7;
    app.preview_match_jump = true;
    let buffer = preview_of(&mut app, vec![], 40, 8);
    assert_eq!(row_text(&buffer, 1, 40), "No session selected.");
    assert!(full_row_text(&buffer, 0, 40).contains(" preview "));
    assert_eq!((app.preview_scroll, app.preview_viewport_h), (0, 6));
    assert!(!app.preview_match_jump);
}

fn open_background(app: &mut App, agent: Option<&str>) {
    app.draft = Some(NewSessionDraft { agent: agent.map(str::to_owned), launch_id: None });
    app.compose = Some(ComposeState {
        target: ComposeTarget::NewBackgroundAgent { agent: agent.map(str::to_owned) },
        screen_rows: 1,
    });
}

#[test]
fn composing_renders_the_reply_box_docked_and_as_a_bottom_bar() {
    let width = 80u16;
    let mut app = sample_board();
    app.compose = Some(reply_to("sess-normal-1", 1));
    let tall = 30u16;
    assert!(
        !compose_uses_bottom_bar(app.compose.is_some(), tall),
        "this board must dock"
    );
    let buffer = drawn_board(&mut app, width, tall);
    assert!(
        full_text(&buffer, width, tall).contains("reply to"),
        "the docked reply box must be titled"
    );

    let mut app = sample_board();
    app.compose = Some(reply_to("sess-normal-1", 1));
    let short = COMPOSE_MIN_DOCK_HEIGHT + BOARD_CHROME_ROWS + 1;
    assert!(
        compose_uses_bottom_bar(app.compose.is_some(), short),
        "this board must bottom-bar"
    );
    let buffer = drawn_board(&mut app, width, short);
    assert!(
        full_text(&buffer, width, short).contains("reply to"),
        "the bottom-bar reply box must be titled"
    );
}

#[test]
fn the_box_of_a_draft_is_drawn_once() {
    for height in 11u16..40 {
        let mut app = sample_board();
        app.compose = Some(reply_to("sess-normal-1", 6));
        let buffer = drawn_board(&mut app, 80, height);
        let boxes = full_text(&buffer, 80, height).matches(" reply to ").count();
        assert_eq!(boxes, 1, "one box on a board of {height} rows");
    }
}

#[test]
fn a_draft_suppresses_the_selected_sessions_banner() {
    let mut app = sample_board();
    app.reported.push(("sess-normal-1".to_string(), background("running")));
    assert!(
        preview_banner(&app).is_some(),
        "a reported session banners while browsing, or this proves nothing"
    );
    open_background(&mut app, Some("planner"));
    assert!(
        preview_banner(&app).is_none(),
        "a draft owns the pane, so no banner row may be reserved"
    );
}

#[test]
fn the_background_draft_pane_renders_a_placeholder_card_not_a_transcript() {
    let width = 80u16;
    let tall = 30u16;
    let mut app = sample_board();
    let browsing = full_text(&drawn_board(&mut app, width, tall), width, tall);
    assert!(
        browsing.contains("webhook"),
        "the fixture's transcript must be visible while browsing:\n{browsing}"
    );

    let mut app = sample_board();
    open_background(&mut app, Some("planner"));
    assert!(
        !compose_uses_bottom_bar(app.compose.is_some(), tall),
        "this board must dock"
    );
    let drawn = full_text(&drawn_board(&mut app, width, tall), width, tall);
    assert!(
        !drawn.contains("webhook"),
        "the draft must not dock over the selected session's transcript:\n{drawn}"
    );
    assert!(
        drawn.contains("new session"),
        "the pane must show a new-session placeholder card:\n{drawn}"
    );
    assert!(
        drawn.contains("@planner"),
        "the card must name the picked agent:\n{drawn}"
    );
    assert!(
        drawn.contains("/tmp/launch"),
        "the card must show the launch directory:\n{drawn}"
    );
    assert!(
        drawn.contains("background agent: planner"),
        "the docked compose box must still be titled for the picked agent:\n{drawn}"
    );
    assert!(
        drawn.contains("Ctrl-O run interactively"),
        "the draft's key hints must offer the interactive escape hatch:\n{drawn}"
    );

    let mut app = sample_board();
    open_background(&mut app, None);
    let short = COMPOSE_MIN_DOCK_HEIGHT + BOARD_CHROME_ROWS + 1;
    assert!(
        compose_uses_bottom_bar(app.compose.is_some(), short),
        "this board must bottom-bar"
    );
    let drawn = full_text(&drawn_board(&mut app, width, short), width, short);
    assert!(
        !drawn.contains("webhook"),
        "the bottom-bar fallback must not leave the transcript in the pane:\n{drawn}"
    );
    assert!(
        drawn.contains(&format!(
            "{DRAFT_CARD_HEADLINE}{DRAFT_CARD_SEPARATOR}{BG_DRAFT_DEFAULT_AGENT}"
        )),
        "the card must name the default row rather than leave it blank:\n{drawn}"
    );
    assert!(
        drawn.contains(&format!("background agent: {BG_DRAFT_DEFAULT_AGENT}")),
        "the bottom-bar compose box must name the default row:\n{drawn}"
    );
}

#[test]
fn a_cancelled_draft_hands_the_transcript_back_at_the_scroll_it_had() {
    let width = 40u16;
    let height = 12u16;
    let draw = |app: &mut App| -> String {
        full_text(&preview_of(app, transcript_lines(), width, height), width, height)
    };
    let mut app = sample_board();
    app.preview_follow_bottom = false;
    app.preview_scroll = 3;
    let browsing = draw(&mut app);
    assert_eq!(
        app.preview_scroll, 3,
        "the fixture must overflow this pane far enough for 3 to be a real offset"
    );

    open_background(&mut app, Some("planner"));
    let carded = draw(&mut app);
    assert!(
        carded.contains(DRAFT_CARD_HEADLINE),
        "the card must own the pane, or the card path was never taken:\n{carded}"
    );
    assert_eq!(
        app.preview_scroll, 3,
        "the card's own geometry must not overwrite the transcript's scroll"
    );

    app.draft = None;
    app.compose = None;
    assert_eq!(
        draw(&mut app),
        browsing,
        "cancelling a draft must hand the pane back exactly as it was"
    );
}

fn sending(message: &str) -> Option<Sending> {
    Some(Sending {
        session_id: "sess-normal-1".to_string(),
        message: message.to_string(),
        baseline_msg_count: 0,
    })
}

#[test]
fn an_in_flight_send_renders_inline_and_suppresses_the_banner() {
    let mut app = sample_board();
    assert!(preview_banner(&app).is_none());
    assert!(sending_tail(&app).is_none());

    app.sending = sending("please summarize this");
    assert!(
        preview_banner(&app).is_none(),
        "an in-flight send suppresses the pinned banner"
    );
    let tail = sending_tail(&app).expect("an in-flight send has a tail");
    assert_eq!(tail.echo.as_deref(), Some("please summarize this"));
    assert!(tail.label.contains("cooking"));
    assert!(!tail.label.contains("sending"));

    app.reported.push(("sess-normal-1".to_string(), background("working")));
    let tail = sending_tail(&app).expect("still in flight");
    assert!(
        tail.label.contains("cooking") && !tail.label.contains("sending"),
        "reported working must still read 'cooking', never 'sending': {tail:?}"
    );

    app.sessions[0].msg_count = 1;
    let tail = sending_tail(&app).expect("still in flight");
    assert_eq!(tail.echo, None, "the echo yields to the real turn once it lands");
    assert!(
        tail.label.contains("cooking"),
        "the pending placeholder stays until the send finishes: {tail:?}"
    );

    app.sending = None;
    assert!(sending_tail(&app).is_none());
    let banner = preview_banner(&app).expect("the reported agent still has a banner");
    let banner_text: String = banner.spans.iter().map(|s| s.text.as_str()).collect();
    assert!(
        !banner_text.contains("sending") && !banner_text.contains("cooking"),
        "no longer in flight: {banner_text:?}"
    );
}

#[test]
fn a_dispatched_reply_is_reported_on_the_preview_not_the_help_line() {
    let mut app = sample_board();
    app.sending = sending("please summarize this");
    let width = 80u16;
    let height = 20u16;
    let buffer = drawn_board(&mut app, width, height);
    let help_row = full_row_text(&buffer, height - 1, width);
    assert!(
        !help_row.contains("cooking"),
        "the help line must not show the in-flight reply: {help_row:?}"
    );
    let board_text = full_text(&buffer, width, height);
    assert!(
        board_text.contains("please summarize this"),
        "the echoed message must appear in the preview pane: {board_text}"
    );
    assert!(
        board_text.contains("cooking"),
        "the in-flight placeholder must appear in the preview pane: {board_text}"
    );
}

#[test]
fn render_preview_pins_scrollbar_thumb_to_track_bottom_when_scrolled_to_end() {
    let mut app = sample_board();
    assert!(
        app.preview_follow_bottom,
        "a freshly selected session must start pinned to the newest turn"
    );
    let width = 80u16;
    let height = 8u16;
    let buffer = preview_of(&mut app, transcript_lines(), width, height);
    let inner_height = height - 2;
    let content_h = content_height(width);
    assert!(
        content_h > usize::from(inner_height),
        "fixture must overflow the viewport for the scrollbar to render"
    );
    let max_offset = (content_h - usize::from(inner_height)) as u32;
    assert_eq!(
        app.preview_scroll, max_offset,
        "follow-bottom must pin the offset to the last page"
    );

    let thumb_col = width - 1;
    let symbol = |row: u16| buffer.cell((thumb_col, row)).expect("a drawn cell").symbol().to_string();
    assert_eq!(
        symbol(height - 3),
        "█",
        "scrolled to the bottom, the thumb must reach the very last track cell"
    );
    assert_eq!(symbol(1), " ", "the begin (up) arrow must be hidden");
    assert_eq!(symbol(height - 2), "↓", "the end (down) arrow must show");
}

#[test]
fn render_preview_shows_begin_arrow_and_hides_end_arrow_at_offset_zero() {
    let mut app = sample_board();
    app.preview_follow_bottom = false;
    app.preview_scroll = 0;
    let width = 80u16;
    let height = 8u16;
    let buffer = preview_of(&mut app, transcript_lines(), width, height);
    assert_eq!(app.preview_scroll, 0, "Home must resolve to the very first offset");
    let thumb_col = width - 1;
    let symbol = |row: u16| buffer.cell((thumb_col, row)).expect("a drawn cell").symbol().to_string();
    assert_eq!(symbol(1), "↑", "scrolled to the top, the begin (up) arrow must show");
    assert_eq!(
        symbol(height - 2),
        " ",
        "scrolled to the top (not the bottom), the end (down) arrow must be hidden"
    );
}

#[test]
fn render_preview_hides_both_arrows_and_detaches_thumb_on_a_partial_scroll() {
    let mut app = sample_board();
    app.preview_follow_bottom = false;
    app.preview_scroll = 5;
    let width = 3u16;
    let height = 10u16;
    let buffer = preview_of(&mut app, transcript_lines(), width, height);
    let inner_height = height - 2;
    let content_h = content_height(width);
    let max_offset = (content_h - usize::from(inner_height)) as u32;
    assert!(
        app.preview_scroll > 0 && app.preview_scroll < max_offset,
        "the requested offset (5) must remain a genuine INTERIOR scroll for this geometry"
    );
    let thumb_col = width - 1;
    let symbol = |row: u16| buffer.cell((thumb_col, row)).expect("a drawn cell").symbol().to_string();
    for row in [1u16, height - 2] {
        assert_eq!(symbol(row), " ", "a genuine partial scroll must hide the arrows");
    }
    for row in [2u16, height - 3] {
        assert_ne!(
            symbol(row),
            "█",
            "a genuine partial scroll must detach the thumb from both ends"
        );
    }
}

const WRAPPING_PANE: (u16, u16) = (12, 10);
const FIXTURE_LAST_WORD: &str = "logging.";

#[test]
fn following_the_bottom_reaches_the_last_line_of_a_word_wrapped_transcript() {
    let (width, height) = WRAPPING_PANE;
    let mut app = sample_board();
    assert!(app.preview_follow_bottom, "the pane must be bottom-anchored");
    let packed: usize = TRANSCRIPT
        .iter()
        .map(|text| text.chars().count().div_ceil(usize::from(width - 2)).max(1))
        .sum();
    let wrapped = content_height(width);
    assert!(
        packed < wrapped,
        "this fixture/width must be one the two models DISAGREE about \
         (packed={packed}, wrapped={wrapped})"
    );
    let rows = inner_rows(&mut app, width, height);
    assert_eq!(
        rows.last().map(String::as_str),
        Some(FIXTURE_LAST_WORD),
        "the newest turn's last row must be the pane's bottom row; drawn rows: {rows:?}"
    );
}

#[test]
fn an_in_flight_reply_tail_counts_toward_the_scrolled_height() {
    let (width, height) = WRAPPING_PANE;
    let inner_width = width - 2;
    let mut app = sample_board();
    let transcript_only = content_height(width);
    app.sending = sending("ping");
    let tail_rows = wrapped_text_rows(&reply_lines(&app), inner_width);
    assert!(tail_rows > 0, "the tail must have rows to be missed");

    let rows = inner_rows(&mut app, width, height);
    assert_eq!(
        app.preview_scroll as usize,
        transcript_only + tail_rows - usize::from(height - 2),
        "the resolved offset must be measured over the transcript AND the tail"
    );
    assert!(
        rows.last().is_some_and(|row| row.contains("cooking")),
        "the live 'cooking…' placeholder must be the pane's bottom row; drawn rows: {rows:?}"
    );
}

const CARD_PANE: (u16, u16) = (40, 8);

#[test]
fn a_draft_card_is_measured_as_itself_not_as_the_transcript_it_replaced() {
    let (width, height) = CARD_PANE;
    let inner_height = usize::from(height - 2);
    let mut app = sample_board();
    let rows = inner_rows(&mut app, width, height);
    assert!(
        content_height(width) > inner_height && app.preview_scroll > 0,
        "the transcript must overflow and really be scrolled; drawn rows: {rows:?}"
    );

    open_background(&mut app, Some("planner"));
    let card = draft_card(
        app.draft.as_ref().expect("the draft card is open"),
        &app.launch_dir,
        app.tick,
    );
    assert!(
        wrapped_text_rows(&card, width - 2) <= inner_height,
        "the card must FIT this pane"
    );
    let rows = inner_rows(&mut app, width, height);
    assert!(
        rows[0].contains(DRAFT_CARD_HEADLINE),
        "the card must start on the pane's first row; drawn rows: {rows:?}"
    );
}

const MARK_PANE: (u16, u16) = (40, 24);
const MARK_QUERY: &str = "webhook";

fn marked_runs(buffer: &Buffer, width: u16, height: u16) -> Vec<String> {
    let mut runs: Vec<String> = Vec::new();
    for y in 0..height {
        let mut run = String::new();
        for x in 0..width {
            let marked = buffer.cell((x, y)).is_some_and(|cell| {
                cell.modifier.contains(ratatui::style::Modifier::REVERSED)
                    && !cell.symbol().trim().is_empty()
            });
            if marked {
                run.push_str(buffer.cell((x, y)).expect("a cell that was just read").symbol());
            } else if !run.is_empty() {
                runs.push(std::mem::take(&mut run));
            }
        }
        if !run.is_empty() {
            runs.push(run);
        }
    }
    runs
}

#[test]
fn the_preview_marks_the_query_where_it_occurs_in_the_transcript() {
    let (width, height) = MARK_PANE;
    let mut app = sample_board();
    let clean = preview_of(&mut app, transcript_lines(), width, height);
    assert!(
        marked_runs(&clean, width, height).is_empty(),
        "an unsearched transcript must carry no marks"
    );

    app.query = MARK_QUERY.to_string();
    let drawn = preview_of(&mut app, transcript_lines(), width, height);
    let runs = marked_runs(&drawn, width, height);
    assert_eq!(runs.len(), 2, "the query occurs twice in this transcript");
    assert!(
        runs.iter().all(|run| run == MARK_QUERY),
        "only the query may be marked, got: {runs:?}"
    );
}

#[test]
fn the_preview_marks_the_query_in_both_search_modes() {
    let (width, height) = MARK_PANE;
    let mut app = sample_board();
    app.query = MARK_QUERY.to_string();
    assert_eq!(app.search_mode, SearchMode::NameOnly, "the default mode");
    let name_only =
        marked_runs(&preview_of(&mut app, transcript_lines(), width, height), width, height);
    assert!(!name_only.is_empty(), "name-only mode must mark the query");

    app.search_mode = SearchMode::NameAndContent;
    let both = marked_runs(&preview_of(&mut app, transcript_lines(), width, height), width, height);
    assert_eq!(both, name_only, "widening the filter marks the same runs");
}

#[test]
fn a_draft_card_carries_no_search_marks() {
    let (width, height) = CARD_PANE;
    let mut app = sample_board();
    app.preview_follow_bottom = false;
    app.query = "e".to_string();
    let transcript = preview_of(&mut app, transcript_lines(), width, height);
    assert!(
        !marked_runs(&transcript, width, height).is_empty(),
        "the transcript must mark this query, or the card proves nothing"
    );

    open_background(&mut app, Some("planner"));
    let carded = preview_of(&mut app, transcript_lines(), width, height);
    let rows: Vec<String> = (0..height).map(|y| row_text(&carded, y, width)).collect();
    assert!(
        rows.iter().any(|row| row.contains(DRAFT_CARD_HEADLINE)),
        "the pane must be showing the card: {rows:?}"
    );
    assert!(
        marked_runs(&carded, width, height).is_empty(),
        "a draft card must carry no search marks: {rows:?}"
    );
}

const BANNER_PANE: (u16, u16) = (80, 8);

fn banner_app(state: Option<&str>) -> App {
    let mut app = sample_board();
    if let Some(state) = state {
        app.reported.push(("sess-normal-1".to_string(), background(state)));
    }
    app
}

#[test]
fn the_status_banner_is_pinned_to_the_top_of_a_default_bottom_anchored_preview() {
    let (width, height) = BANNER_PANE;
    let mut reported = banner_app(Some("blocked"));
    assert!(
        reported.preview_follow_bottom,
        "the preview must be bottom-anchored by default, or this test proves nothing"
    );
    let inner_height = height - 2;
    assert!(
        content_height(width) > usize::from(inner_height),
        "the fixture must overflow the pane, or this test proves nothing"
    );

    let rows = inner_rows(&mut reported, width, height);
    assert_eq!(
        rows[0], "bg needs input",
        "a reported session must LEAD with its status banner in the default view"
    );
    assert!(
        reported.preview_scroll > 0,
        "the transcript beneath the banner must really be scrolled to the newest turn"
    );

    let mut plain = banner_app(None);
    let plain_rows = inner_rows(&mut plain, width, height);
    assert_eq!(
        rows.last(),
        plain_rows.last(),
        "the newest transcript line must stay anchored to the pane's bottom row"
    );
    assert_ne!(
        plain_rows[0], "bg needs input",
        "the baseline row must be real transcript, or this test proves nothing"
    );
    assert_eq!(
        reported.preview_viewport_h,
        plain.preview_viewport_h - 1,
        "the pinned banner must cost the transcript exactly one row"
    );
}

#[test]
fn a_done_session_still_leads_with_its_status_banner() {
    let (width, height) = BANNER_PANE;
    let mut app = banner_app(Some("done"));
    let rows = inner_rows(&mut app, width, height);
    assert_eq!(
        rows[0], "bg done",
        "a reported-but-finished session must still show its banner"
    );
}

#[test]
fn the_status_banner_is_styled_with_a_named_color_and_bold() {
    let (width, height) = BANNER_PANE;
    let mut app = banner_app(Some("blocked"));
    let buffer = preview_of(&mut app, transcript_lines(), width, height);
    let cell = buffer.cell((1, 1)).expect("the banner's first cell is inside the rendered buffer");
    assert_eq!(
        cell.fg,
        ratatui::style::Color::Cyan,
        "a NAMED ansi color (never RGB) marks the banner as board copy"
    );
    assert!(cell.modifier.contains(ratatui::style::Modifier::BOLD));
}

#[test]
fn a_live_session_with_an_empty_transcript_still_draws_its_banner() {
    let (width, height) = BANNER_PANE;
    let mut app = banner_app(Some("blocked"));
    let buffer = preview_of(&mut app, vec![], width, height);
    let rows: Vec<String> = (1..height - 1).map(|y| row_text(&buffer, y, width)).collect();
    assert_eq!(
        rows[0], "bg needs input",
        "a live session must still lead with its status banner when its transcript is empty"
    );
    assert!(
        !rows.iter().any(|row| row.contains("No session selected.")),
        "a SELECTED live session must never fall through to the placeholder: {rows:?}"
    );
}

#[test]
fn the_status_banner_passes_an_unknown_state_through_verbatim() {
    let app = banner_app(Some("compacting"));
    let banner = preview_banner(&app).expect("a reported session yields a banner");
    let text: String = banner.spans.iter().map(|s| s.text.as_str()).collect();
    assert_eq!(text, "bg compacting");
}

#[test]
fn a_banner_less_preview_draws_byte_for_byte_what_one_blocked_paragraph_drew() {
    let (width, height) = BANNER_PANE;
    let mut app = banner_app(None);
    let actual = preview_of(&mut app, transcript_lines(), width, height);
    let offset = u16::try_from(app.preview_scroll).expect("this fixture fits a u16 offset");
    assert!(offset > 0, "a scrolled pane, or this compares only offset 0");

    let lines: Vec<ratatui::text::Line<'static>> = transcript_lines().iter().map(line_of).collect();
    let mut expected = Buffer::empty(area_of(screen(width, height)));
    ratatui::widgets::Paragraph::new(ratatui::text::Text::from(lines))
        .block(ratatui::widgets::Block::bordered().title(" preview "))
        .wrap(ratatui::widgets::Wrap { trim: false })
        .scroll((offset, 0))
        .render(area_of(screen(width, height)), &mut expected);

    let cells = |buffer: &Buffer| -> Vec<(String, ratatui::style::Style)> {
        (0..height)
            .flat_map(|y| (0..width - 1).map(move |x| (x, y)))
            .filter_map(|(x, y)| {
                buffer.cell((x, y)).map(|c| (c.symbol().to_string(), c.style()))
            })
            .collect()
    };
    assert_eq!(
        cells(&actual),
        cells(&expected),
        "a banner-less pane's geometry, content and styling must be untouched by the banner"
    );
}

fn unwindowed_rows(lines: &[Line], offset: u16, inner_w: u16, inner_h: u16) -> Vec<String> {
    let area = area_of(screen(inner_w, inner_h));
    let mut buffer = Buffer::empty(area);
    let text: Vec<ratatui::text::Line<'static>> = lines.iter().map(line_of).collect();
    ratatui::widgets::Paragraph::new(ratatui::text::Text::from(text))
        .wrap(ratatui::widgets::Wrap { trim: false })
        .scroll((offset, 0))
        .render(area, &mut buffer);
    (0..inner_h).map(|y| full_row_text(&buffer, y, inner_w)).collect()
}

fn long_lines() -> Vec<Line> {
    let mut lines = Vec::new();
    for _ in 0..5 {
        lines.extend(transcript_lines());
    }
    lines
}

fn drawn_rows(app: &mut App, lines: Vec<Line>, width: u16, height: u16) -> Vec<String> {
    let buffer = preview_of(app, lines, width, height);
    (1..height - 1).map(|y| row_text(&buffer, y, width)).collect()
}

#[test]
fn a_windowed_render_paints_what_the_whole_transcript_render_painted() {
    for (width, height) in [(44u16, 12u16), (12, 10), (44, 8), (20, 5)] {
        let (inner_w, inner_h) = (width - 2, height - 2);
        let lines = long_lines();
        let prefix = measured(long_lines(), inner_w, "", None).row_prefix;
        let content_h = prefix.last().copied().expect("a non-empty prefix map");
        assert!(
            content_h > usize::from(inner_h) * 2,
            "the fixture must overflow this pane several times over (content_h={content_h})"
        );
        assert!(
            prefix.windows(2).any(|pair| pair[1] - pair[0] > 1),
            "some line must WRAP, or every offset lands on a line boundary"
        );
        let max_offset = content_h - usize::from(inner_h);
        let mut app = sample_board();
        app.preview_follow_bottom = false;
        for offset in 0..=(max_offset + 5) {
            app.preview_scroll = u32::try_from(offset).expect("a small test offset");
            let drawn = drawn_rows(&mut app, long_lines(), width, height);
            let expected = unwindowed_rows(
                &lines,
                u16::try_from(offset.min(max_offset)).expect("a small test offset"),
                inner_w,
                inner_h,
            );
            assert_eq!(drawn, expected, "at offset {offset} of a {width}x{height} pane");
        }
    }
}

#[test]
fn a_searched_pane_paints_the_rows_of_the_unmarked_one() {
    for query in ["retr", "e", "webhook", " "] {
        for (width, height) in [(44u16, 12u16), (12, 10), (17, 6)] {
            let (inner_w, inner_h) = (width - 2, height - 2);
            let lines = long_lines();
            let max_offset = wrapped_text_rows(&lines, inner_w) - usize::from(inner_h);
            let mut app = sample_board();
            app.query = query.to_string();
            app.preview_follow_bottom = false;
            for offset in 0..=max_offset {
                app.preview_scroll = u32::try_from(offset).expect("a small test offset");
                let drawn = drawn_rows(&mut app, long_lines(), width, height);
                let offset = u16::try_from(offset).expect("a small test offset");
                let expected = unwindowed_rows(&lines, offset, inner_w, inner_h);
                assert_eq!(drawn, expected, "{query:?} at {offset} of {width}x{height}");
            }
        }
    }
}

#[test]
fn a_windowed_reply_paints_below_its_transcript() {
    for (width, height) in [(12u16, 6u16), (30, 5)] {
        let mut app = sample_board();
        app.sending = sending("ping me once it is done");
        let mut whole = transcript_lines();
        whole.extend(reply_lines(&app));
        let max_offset = wrapped_text_rows(&whole, width - 2) - usize::from(height - 2);
        for offset in 0..=(max_offset + 5) {
            app.preview_follow_bottom = false;
            app.preview_scroll = u32::try_from(offset).expect("a small test offset");
            let rows = inner_rows(&mut app, width, height);
            let clamped = u16::try_from(offset.min(max_offset)).expect("a small test offset");
            let expected = unwindowed_rows(&whole, clamped, width - 2, height - 2);
            assert_eq!(rows, expected, "at offset {offset} of a {width}x{height} pane");
        }
    }
}

const WINDOW_PANE: (u16, u16) = (44, 7);

#[test]
fn an_offset_inside_a_wrapped_line_paints_that_line_from_the_right_row() {
    let (width, height) = (14u16, 8u16);
    let lines = transcript_lines();
    let prefix = measured(transcript_lines(), width - 2, "", None).row_prefix;
    let line = (0..lines.len())
        .find(|&i| prefix[i + 1] - prefix[i] >= 3)
        .expect("the fixture must hold a line wrapping to three rows or more");
    let mut app = sample_board();
    app.preview_follow_bottom = false;
    app.preview_scroll = u32::try_from(prefix[line] + 1).expect("a small test offset");
    let drawn = inner_rows(&mut app, width, height);
    let at_line_start = unwindowed_rows(
        &lines,
        u16::try_from(prefix[line]).expect("a small test offset"),
        width - 2,
        height - 2,
    );
    assert_ne!(drawn[0], at_line_start[0], "the line's first two rows must differ");
    assert_eq!(
        drawn[0], at_line_start[1],
        "the pane's top row must be the wrapped line's SECOND row; drawn: {drawn:?}"
    );
}

#[test]
fn marks_inside_a_window_that_starts_past_line_zero_land_on_the_query() {
    let (width, height) = WINDOW_PANE;
    let mut app = sample_board();
    app.query = "logging".to_string();
    let drawn = preview_of(&mut app, transcript_lines(), width, height);
    assert!(app.preview_scroll > 3, "the window must start past line 0");
    let runs = marked_runs(&drawn, width, height);
    assert_eq!(runs, vec!["logging"], "only the query may be marked in a scrolled window");
}

const THUMB_GLYPH: &str = "\u{2588}";

#[test]
fn the_scrollbar_describes_the_whole_transcript_not_the_window() {
    let (width, height) = (24u16, 8u16);
    let inner_h = height - 2;
    let max_offset = content_height(width) - usize::from(inner_h);
    assert!(
        max_offset > usize::from(inner_h),
        "the transcript must be several viewports long"
    );
    let track = 2..height - 2;
    let thumb_rows = |buffer: &Buffer| -> Vec<u16> {
        track
            .clone()
            .filter(|&y| {
                buffer.cell((width - 1, y)).is_some_and(|cell| cell.symbol() == THUMB_GLYPH)
            })
            .collect()
    };
    let mut app = sample_board();
    app.preview_follow_bottom = false;
    app.preview_scroll = u32::try_from(max_offset / 2).expect("a small test offset");
    let middle = preview_of(&mut app, transcript_lines(), width, height);
    let thumb = thumb_rows(&middle);
    assert!(
        !thumb.is_empty() && thumb.len() < track.len(),
        "a mid-scroll thumb must be present and SHORTER than the track: {thumb:?}"
    );
    assert_eq!(middle.cell((width - 1, height - 2)).map(|c| c.symbol()), Some(" "));

    app.preview_scroll = u32::try_from(max_offset).expect("a small test offset");
    let bottom = preview_of(&mut app, transcript_lines(), width, height);
    assert_eq!(
        bottom.cell((width - 1, height - 2)).map(|c| c.symbol()),
        Some("↓"),
        "only the whole transcript's last page may show the end arrow"
    );
    assert!(
        thumb_rows(&bottom).last() > thumb.last(),
        "and the thumb must have travelled DOWN the track between the two"
    );
}

fn grown_lines() -> Vec<Line> {
    let mut lines = transcript_lines();
    lines.extend(transcript_lines());
    lines
}

#[test]
fn a_scroll_past_the_end_leaves_the_pane_where_the_reader_put_it() {
    let (width, height) = WINDOW_PANE;
    let mut app = sample_board();
    app.preview_follow_bottom = false;
    app.preview_scroll = 4000;
    let landed = preview_of(&mut app, transcript_lines(), width, height);
    let bottom = app.preview_scroll;
    assert_eq!(
        bottom as usize,
        content_height(width) - usize::from(height - 2),
        "the overshoot clamps onto the newest row"
    );
    let top = row_text(&landed, 1, width);
    let after = preview_of(&mut app, grown_lines(), width, height);
    assert_eq!(
        app.preview_scroll, bottom,
        "scrolling to the end is not a subscription to whatever lands next"
    );
    assert_eq!(row_text(&after, 1, width), top, "so the reader keeps the row they were on");
    assert!(!app.preview_follow_bottom);
}

#[test]
fn a_resize_that_clamps_the_offset_leaves_the_pane_where_the_reader_put_it() {
    let (narrow, height) = (20u16, 7u16);
    let wide = narrow * 2;
    let mut app = sample_board();
    app.preview_follow_bottom = false;
    app.preview_scroll =
        u32::try_from(content_height(narrow) - usize::from(height - 2) - 1).expect("small");
    preview_of(&mut app, transcript_lines(), narrow, height);
    let chosen = app.preview_scroll;
    preview_of(&mut app, transcript_lines(), wide, height);
    let clamped = app.preview_scroll;
    assert!(clamped < chosen, "the resize must really cut the offset short");
    let held = preview_of(&mut app, transcript_lines(), wide, height);
    let top = row_text(&held, 1, wide);
    let after = preview_of(&mut app, grown_lines(), wide, height);
    assert_eq!(
        app.preview_scroll, clamped,
        "a resize is not a request to follow the newest turn"
    );
    assert_eq!(row_text(&after, 1, wide), top);
}

#[test]
fn a_shrinking_transcript_leaves_the_pane_where_the_reader_put_it() {
    let (width, height) = WINDOW_PANE;
    let mut app = sample_board();
    app.preview_follow_bottom = false;
    app.preview_scroll = 12;
    preview_of(&mut app, grown_lines(), width, height);
    assert_eq!(app.preview_scroll, 12);
    let held = preview_of(&mut app, transcript_lines(), width, height);
    let clamped = app.preview_scroll;
    assert!(clamped < 12, "the shrink must really cut the offset short");
    let after = preview_of(&mut app, grown_lines(), width, height);
    assert_eq!(
        app.preview_scroll, clamped,
        "a transcript changing height is not a request to follow the newest turn"
    );
    assert_eq!(row_text(&after, 1, width), row_text(&held, 1, width));
}

#[test]
fn a_click_resolves_the_link_under_it_on_a_scrolled_windowed_pane() {
    let (width, height) = (30u16, 8u16);
    let mut lines: Vec<Line> = (1..=30).map(|i| text_line(&format!("turn {i}"))).collect();
    lines.push(text_line("a line that is long enough to wrap onto three rows of such a pane"));
    lines.push(text_line("open docs here"));
    let mut app = sample_board();
    let area = screen(width, height);
    let (_, inner, _) = preview_areas(&app, area);
    let transcript = measured(lines, inner.width, "", None);
    let draws = render_preview(&mut app, area, &transcript, &vec![]);
    let buffer = painted(&draws, width, height);
    assert!(app.preview_scroll > 0, "the pane must really be scrolled");
    let regions = [LinkRegion {
        content_row: 31,
        col_start: 5,
        col_end: 9,
        url: "https://example.com/windowed".to_string(),
    }];
    let y = row_of(&buffer, width, height, "open docs here");
    let x = column_of(&buffer, y, width, "docs");
    let hit = |col: u16, row: u16| {
        link_at(col, row, inner, app.preview_scroll, &transcript.row_prefix, &regions)
    };
    assert_eq!(hit(x, y), Some("https://example.com/windowed"));
    assert_eq!(hit(x + 3, y), Some("https://example.com/windowed"));
    assert_eq!(hit(x + 4, y), None);
    assert_eq!(hit(x, y - 1), None);
}

const COMPOSE_TITLE_MARKER: &str = "reply to";
const WRAPPING_DRAFT: &str = "aaaaaaaaaaaaaa bbbbbbbbbbbbbb cccccccccccccc";
const WRAPPING_DRAFT_ROWS: usize = 3;

/// Draw a board with the wrapping draft in its editor.
fn drafted_board(width: u16, height: u16, list_width: u16) -> Buffer {
    let mut app = sample_board();
    app.compose = Some(reply_to("sess-normal-1", WRAPPING_DRAFT_ROWS));
    let area = screen(width, height);
    let board = lay_out(&app, area, list_width);
    let (_, inner, _) = preview_areas(&app, board.preview);
    let transcript = measured(transcript_lines(), inner.width, "", None);
    let draws = render(&mut app, area, &board, &transcript, &vec![]);
    let mut buffer = Buffer::empty(area_of(area));
    paint(&draws, &mut buffer, WRAPPING_DRAFT);
    buffer
}

fn assert_whole_draft_is_visible(buffer: &Buffer, width: u16, height: u16, editor_width: usize) {
    let rows: Vec<String> = (0..height).map(|y| full_row_text(buffer, y, width)).collect();
    let top = rows
        .iter()
        .position(|row| row.contains(COMPOSE_TITLE_MARKER))
        .expect("the compose box must be drawn, titled");
    let bottom = (top + 1..rows.len())
        .find(|&y| rows[y].contains('└'))
        .expect("the compose box must be closed by a bottom border");
    let closing: Vec<char> = rows[bottom].chars().collect();
    let left = closing.iter().position(|c| *c == '└').expect("a bottom-left corner");
    let right = closing.iter().position(|c| *c == '┘').expect("a bottom-right corner");
    assert_eq!(
        right - left - 1,
        editor_width,
        "the compose editor must really be drawn {editor_width} columns wide"
    );
    let text = &rows[top + 1..bottom];
    assert_eq!(
        text.len(),
        WRAPPING_DRAFT_ROWS,
        "the box must grow to the draft's wrapped height; drawn rows: {text:?}"
    );
    for (row, word) in text.iter().zip(WRAPPING_DRAFT.split(' ')) {
        assert!(row.contains(word), "{word:?} must be visible; drawn rows: {text:?}");
    }
}

#[test]
fn a_wrapping_draft_grows_the_docked_compose_box_rather_than_scrolling_its_first_row_away() {
    let (width, height) = (60u16, 30u16);
    assert!(!compose_uses_bottom_bar(true, height), "this board must DOCK");
    assert_whole_draft_is_visible(&drafted_board(width, height, 30), width, height, 26);
}

#[test]
fn a_wrapping_draft_grows_the_bottom_bar_compose_box_rather_than_scrolling_its_first_row_away() {
    let (width, height) = (30u16, COMPOSE_MIN_DOCK_HEIGHT + BOARD_CHROME_ROWS + 1);
    assert!(compose_uses_bottom_bar(true, height), "this board must BOTTOM-BAR");
    assert_whole_draft_is_visible(&drafted_board(width, height, 15), width, height, 28);
}

#[test]
fn a_docked_box_leaves_the_transcript_three_rows_at_any_length() {
    for rows in [1usize, 3, 6, 40] {
        for height in 1u16..40 {
            let mut app = banner_app(Some("blocked"));
            app.compose = Some(reply_to("sess-normal-1", rows));
            let (banner, transcript, compose) = preview_areas(&app, screen(40, height));
            if compose.height > 0 {
                assert!(transcript.height >= 3);
                assert_eq!(usize::from(compose.height), rows.min(6) + 2);
                assert_eq!(banner.height + transcript.height + compose.height, height - 2);
            } else {
                assert!(height < 14);
            }
        }
    }
}

#[test]
fn a_jump_parks_the_match_a_third_down_and_happens_once() {
    let (width, height) = WRAPPING_PANE;
    let mut app = sample_board();
    app.preview_match_jump = true;
    let area = screen(width, height);
    let (_, inner, _) = preview_areas(&app, area);
    let target = 7;
    let transcript = measured(transcript_lines(), inner.width, "limit", Some(target));
    let above = transcript.row_prefix[target];
    render_preview(&mut app, area, &transcript, &vec![]);
    assert_eq!(app.preview_scroll as usize, above - usize::from(inner.height / 3));
    assert!(!app.preview_match_jump, "the jump is consumed");
    assert!(!app.preview_follow_bottom, "and the anchor lets go");

    let settled = app.preview_scroll;
    render_preview(&mut app, area, &transcript, &vec![]);
    assert_eq!(app.preview_scroll, settled, "the next frame stays where the jump led");

    app.preview_match_jump = true;
    open_background(&mut app, None);
    render_preview(&mut app, area, &transcript, &vec![]);
    assert!(!app.preview_match_jump, "a card drops the jump");
    assert_eq!(app.preview_scroll, settled);
}

#[test]
fn a_hidden_pane_swallows_the_match_jump() {
    let mut app = sample_board();
    app.show_preview = false;
    app.preview_match_jump = true;
    app.preview_scroll = 9;
    drawn_board(&mut app, 80, 20);
    assert!(!app.preview_match_jump);
    assert_eq!(app.preview_scroll, 9);
    assert_eq!(app.preview_rect, Rect::none());
    assert_eq!(app.list_rect, Rect { x: 0, y: 1, width: 80, height: 17 });
}

// --- modals ---------------------------------------------------------------------------

fn choice(label: &str, description: Option<&str>) -> ModalChoice {
    ModalChoice { label: label.to_string(), description: description.map(str::to_owned) }
}

fn modal(layout: ModalLayout, message: &str, choices: Vec<ModalChoice>, selected: usize) -> Modal {
    Modal {
        title: "delete session".to_string(),
        message: message.to_string(),
        layout,
        choices,
        selected,
    }
}

#[test]
fn render_draws_the_agent_picker_overlay_without_panicking() {
    let mut app = sample_board();
    app.modal = Some(modal(
        ModalLayout::List,
        "Start a new session as which agent?",
        vec![
            choice("default (no agent)", None),
            choice("planner", Some("plans work")),
            choice("builder", None),
        ],
        0,
    ));
    let drawn = full_text(&drawn_board(&mut app, 80, 24), 80, 24);
    assert!(app.modal.is_some(), "rendering must not disturb the open picker");
    assert!(
        drawn.contains("Enter draft") && drawn.contains("^O interactive"),
        "the picker footer must name both Enter and Ctrl-O:\n{drawn}"
    );
    assert!(drawn.contains("› default (no agent)"), "{drawn}");
    assert!(drawn.contains("  planner  plans work"), "{drawn}");
}

#[test]
fn render_draws_the_running_session_choice_overlay_without_panicking() {
    let mut app = sample_board();
    app.modal = Some(modal(
        ModalLayout::Row,
        "This session is running.",
        vec![choice("Attach", None), choice("Fork", None), choice("Cancel", None)],
        0,
    ));
    let drawn = full_text(&drawn_board(&mut app, 80, 24), 80, 24);
    assert!(app.modal.is_some(), "rendering must not disturb the open overlay");
    assert!(drawn.contains(" Attach      Fork      Cancel "), "{drawn}");
    assert!(drawn.contains("\u{2190}/\u{2192} choose"), "{drawn}");
}

const DELETE_MESSAGE: &str = "Permanently delete this transcript from disk? This can't be undone. \
     Only the file goes: a background agent keeps running until you stop it there, \
     and for as long as it runs it can write a new transcript.";

fn delete_choices() -> Vec<ModalChoice> {
    vec![choice("Delete this", None), choice("Delete lineage (3)", None), choice("Cancel", None)]
}

#[test]
fn the_delete_confirm_modal_shows_its_full_message_without_clipping() {
    let (width, height) = (80u16, 24u16);
    let mut app = sample_board();
    app.modal = Some(modal(ModalLayout::Row, DELETE_MESSAGE, delete_choices(), 2));
    let buffer = drawn_board(&mut app, width, height);
    let inner_x = usize::from((width - MODAL_WIDTH) / 2 + 1);
    let inner_w = usize::from(MODAL_WIDTH - 2);
    let flat = (0..height)
        .map(|y| {
            full_row_text(&buffer, y, width).chars().skip(inner_x).take(inner_w).collect::<String>()
        })
        .collect::<Vec<_>>()
        .join(" ")
        .split_whitespace()
        .collect::<Vec<_>>()
        .join(" ");
    for needle in [
        "Permanently delete this transcript from disk?",
        "This can't be undone.",
        "a background agent keeps running until you stop it there",
        "it can write a new transcript.",
        "Delete this",
        "Cancel",
    ] {
        assert!(
            flat.contains(needle),
            "the wrapped delete confirm must show {needle:?} in full:\n{flat}"
        );
    }
}

#[test]
fn the_disclosing_delete_confirm_costs_one_row_and_keeps_cancel_default() {
    let shortest_showing = |app: &mut App, needle: &str| -> Option<u16> {
        (4u16..=16).find(|&h| full_text(&drawn_board(app, 80, h), 80, h).contains(needle))
    };
    let plain_message = DELETE_MESSAGE;
    let disclosing = format!("3 in this lineage, 2 of them hidden. {DELETE_MESSAGE}");
    let rows = |message: &str| wrap_message(message, MODAL_WIDTH - 2).len();
    assert_eq!(rows(plain_message), 4);
    assert_eq!(rows(&disclosing), 5);

    let mut app = sample_board();
    app.modal = Some(modal(ModalLayout::Row, &disclosing, delete_choices(), 2));
    assert_eq!(shortest_showing(&mut app, "Delete lineage (3)"), Some(9));
    assert_eq!(shortest_showing(&mut app, "Esc cancel"), Some(11));
    let open = app.modal.as_ref().expect("the confirm is open");
    assert_eq!(open.choices[open.selected].label, "Cancel");

    let mut plain = sample_board();
    plain.modal = Some(modal(ModalLayout::Row, plain_message, delete_choices(), 2));
    assert_eq!(shortest_showing(&mut plain, "Delete lineage (3)"), Some(8));
    assert_eq!(shortest_showing(&mut plain, "Esc cancel"), Some(10));
}

#[test]
fn counts_in_the_lineage_label_would_cost_cancel_ten_columns() {
    let narrowest_whole_cancel = |lineage_label: &str| -> Option<u16> {
        (20u16..=70).find(|&w| {
            let open = modal(
                ModalLayout::Row,
                DELETE_MESSAGE,
                vec![choice("Delete this", None), choice(lineage_label, None), choice("Cancel", None)],
                2,
            );
            let draws = render_modal(&open, screen(w, 24));
            full_text(&painted(&draws, w, 24), w, 24).contains("Cancel")
        })
    };
    assert_eq!(
        narrowest_whole_cancel("Delete lineage (5)"),
        Some(50),
        "the shipped strip keeps Cancel whole down to a 50-column terminal"
    );
    assert_eq!(
        narrowest_whole_cancel("Delete lineage (5, 2 hidden)"),
        Some(60),
        "counts in the label cost Cancel ten columns"
    );
}

#[test]
fn the_disclosed_counts_survive_clipping_to_a_third_of_the_box() {
    let message = format!("12 in this lineage, 10 of them hidden. {DELETE_MESSAGE}");
    let first_message_row = |w: u16| -> String {
        let mut app = sample_board();
        app.modal = Some(modal(ModalLayout::Row, &message, delete_choices(), 2));
        let buffer = drawn_board(&mut app, w, 24);
        (0..24u16)
            .map(|y| full_row_text(&buffer, y, w))
            .skip_while(|row| !row.contains("delete session"))
            .nth(1)
            .expect("the modal draws a message row under its titled top border")
            .trim_matches('\u{2502}')
            .to_string()
    };
    let at_30 = first_message_row(30);
    assert!(
        at_30.starts_with("12 in this lineage, 10"),
        "both counts must still read whole at 30 columns: {at_30:?}"
    );
    assert_eq!(
        first_message_row(23),
        "12 in this lineage, 1",
        "at 23 columns the multi-digit hidden count clips into a shorter one"
    );
}

#[test]
fn a_confirmation_names_the_session_and_fits_its_box() {
    let mut app = sample_board();
    app.sessions[0].label = "fix the build".to_string();
    assert!(render_stop_confirm(&app, screen(80, 24)).is_empty());
    assert!(render_interrupt_confirm(&app, screen(80, 24)).is_empty());

    app.pending_stop = Some(PendingStop { session_id: "sess-normal-1".to_string() });
    let drawn = full_text(&drawn_board(&mut app, 80, 24), 80, 24);
    for needle in [
        " stop the waiting agent? ",
        "This session is a waiting agent.",
        "Stop it and reply in place?  —  fix the build",
        "(ends the live agent; its conversation is kept)",
        "Enter  stop & reply    \u{b7}    Esc  cancel",
    ] {
        assert!(drawn.contains(needle), "{needle:?} is missing:\n{drawn}");
    }

    app.pending_stop = None;
    app.pending_interrupt = Some(PendingStop { session_id: "gone".to_string() });
    let drawn = full_text(&drawn_board(&mut app, 80, 24), 80, 24);
    for needle in [
        " stop this agent? ",
        "This session is running as an agent.",
        "Stop it?  —  gone",
        "Enter  stop    \u{b7}    Esc  cancel",
    ] {
        assert!(drawn.contains(needle), "{needle:?} is missing:\n{drawn}");
    }
}

#[test]
fn a_phrase_of_wide_characters_costs_the_columns_it_takes() {
    let (_, height) = LINEAGE_BOARD_SIZE;
    for width in 44u16..60 {
        let mut app = lineage_board();
        app.reported.push((BG_ID.to_string(), background("日本語")));
        let buffer = drawn_list(&mut app, width, height);
        let head = row_of(&buffer, width, height, "(+1)");
        let text = row_text(&buffer, head, width);
        assert!(text.contains(LABEL_ELLIPSIS), "the label must be cut: {text:?}");
        let marker = column_of(&buffer, head, width, "(+1)");
        assert_eq!(marker + 4, width - 1, "the marker ends at the border: {text:?}");
    }
}

#[test]
fn a_modal_of_many_rows_takes_the_whole_screen() {
    let width = MODAL_WIDTH - 2;
    let word = "x".repeat(usize::from(width) / 2 + 1);
    for rows in [65_533usize, 65_536] {
        let message = vec![word.as_str(); rows].join(" ");
        assert_eq!(wrap_message(&message, width).len(), rows, "a word a row");
        let open = modal(ModalLayout::Row, &message, vec![choice("Cancel", None)], 0);
        let draws = render_modal(&open, screen(80, 24));
        let heights: Vec<u16> = draws
            .iter()
            .filter_map(|draw| match draw {
                Draw::Clear(area) => Some(area.height),
                _ => None,
            })
            .collect();
        assert_eq!(heights, vec![24], "{rows} rows of message");
    }
}

#[test]
fn a_board_drawn_again_is_the_same() {
    for scroll in [0u32, 3, u32::MAX] {
        for follow in [true, false] {
            let ids: Vec<Session> = (0..30).map(|i| session(&format!("sess-{i:02}"))).collect();
            let mut app = board_of(ids);
            app.selected_row = Some(20);
            app.scroll = scroll as usize;
            app.preview_scroll = scroll;
            app.preview_follow_bottom = follow;
            let first = drawn_board(&mut app, 80, 12);
            let left =
                (app.scroll, app.preview_scroll, app.preview_follow_bottom, app.preview_rect);
            let second = drawn_board(&mut app, 80, 12);
            assert_eq!(first, second, "scroll {scroll}, follow {follow}");
            assert_eq!(
                left,
                (app.scroll, app.preview_scroll, app.preview_follow_bottom, app.preview_rect)
            );
        }
    }
}

#[test]
fn a_project_without_a_label_has_one_name() {
    let mut app = sample_board();
    app.launch_dir = b"/work/snapback/.agents/worktrees/feature/quick-send".to_vec();
    app.repo_root = b"/work/snapback".to_vec();
    app.worktrees = WorktreeSet::empty();
    let root = app.repo_root.clone();
    let name = project_root_name(&app.launch_dir, |_dir: &[u8]| root.clone());
    assert_eq!(name, "snapback");
    assert_eq!(project_name(&app), name);
    app.scope = Scope::Project;
    assert!(drawn_header(&app).contains("project:snapback"));
}
