//! The preview of the selected session.

use std::collections::{HashMap, HashSet};
use vstd::prelude::*;
use crate::agents::{friendly_status, optional_text};
use crate::app::{App, Sending};
use crate::compose::{
    card_lines, compose_zone_height, draft_card, lemma_the_spinner_turns_with_the_tick,
    render_compose_zone, spinner_at, text_rows, zone_draws,
};
use crate::draw::{
    append, draw_views, plain_paragraph, titled, Draw, DrawView, Frame, Paragraph, ParagraphView,
    Scrollbar, ScrollbarView,
};
use crate::geometry::{
    compose_split, floored_difference, inner_of, least, preview_compose_split, preview_inner, Rect,
    COMPOSE_MIN_DOCK_HEIGHT, COMPOSE_MIN_TRANSCRIPT_ROWS,
};
use crate::highlight::{clusters_of, highlight_matched_spans, marked_spans};
use crate::labels::spinner_frame;
use crate::links::cell_target;
use crate::paths::reads_as_spelled;
use crate::rows::{
    capped_rows, content_at, is_row_map, joint_window, lemma_a_joint_window_paints_both,
    lemma_a_window_paints_what_the_whole_paints, lemma_content_rows_are_exact,
    lemma_row_falls_into_the_first, lemma_row_falls_into_the_second, lemma_row_map,
    lemma_rows_are_additive, lemma_rows_go_by_clusters, lemma_upto,
    lemma_window_covers_the_viewport, lemma_window_is_in_range, line_holding, row_map, row_window,
    rows_of, shows_by, window_of, wrapped_row_prefix, MAX_PANE_WIDTH,
};
use crate::scroll::{
    clamp_preview_offset, clamped_offset, jump_offset, lemma_the_thumb_reaches_both_ends,
    match_jump_offset, max_offset_of, max_preview_offset, scrollbar_thumb_position,
    thumb_position,
};
use crate::style::{
    copy_lines, lemma_a_line_reads_its_spans, line_text, line_views, plain_line, raw_span,
    span_texts, styled_span, Color, Line, LineView, Modifier, Span, SpanView, Style,
};
use crate::text::concat3;

verus! {

broadcast use {
    vstd::std_specs::hash::group_hash_axioms,
    crate::draw::lemma_draw_views_push,
    crate::style::lemma_line_views_push,
};

/// The banner of the selected session: how its agent reads, where one was
/// reported. A draft and a reply that is on its way leave it no place.
pub open spec fn banner_line(app: App) -> Option<LineView> {
    if app.draft is Some {
        None
    } else {
        match app.selected {
            None => None,
            Some(id) => if app.reply_to(id@) is Some {
                None
            } else {
                match app.agent(id@) {
                    Some(agent) => Some(
                        plain_line(
                            seq![
                                styled_span(
                                    agent@.line(),
                                    Style::plain().fg(Color::Cyan).add_modifier(Modifier::bold()),
                                ),
                            ],
                        ),
                    ),
                    None => None,
                }
            },
        }
    }
}

/// The banner of the selected session.
pub fn preview_banner(app: &App) -> (banner: Option<Line>)
    ensures
        match banner {
            Some(line) => banner_line(*app) == Some(line@),
            None => banner_line(*app) is None,
        },
{
    if app.draft.is_some() {
        return None;
    }
    let selected = match &app.selected {
        Some(id) => id.as_str(),
        None => {
            return None;
        },
    };
    if app.sending_to(selected).is_some() {
        return None;
    }
    match app.reported_agent(selected) {
        Some(agent) => Some(
            Line::from_span(
                Span::styled(
                    friendly_status(agent),
                    Style::plain().fg(Color::Cyan).add_modifier(Modifier::bold()),
                ),
            ),
        ),
        None => None,
    }
}

/// What stands for a reply that is on its way.
pub const REPLY_COOKING_LABEL: &'static str = "cooking\u{2026}";

/// The turns to show below a transcript for a reply that is on its way: the
/// message, as long as the transcript does not hold it, and what stands for the
/// answer.
#[derive(Debug)]
pub struct PendingReply {
    pub echo: Option<String>,
    pub label: String,
}

/// What a pending reply shows.
pub struct PendingReplyView {
    pub echo: Option<Seq<char>>,
    pub label: Seq<char>,
}

impl View for PendingReply {
    type V = PendingReplyView;

    open spec fn view(&self) -> PendingReplyView {
        PendingReplyView { echo: optional_text(self.echo), label: self.label@ }
    }
}

/// The turns of the reply that is on its way to the selected session. Its message
/// is echoed until the session has more turns than when it was sent.
pub open spec fn pending_reply(app: App) -> Option<PendingReplyView> {
    match app.selected {
        None => None,
        Some(id) => match app.reply_to(id@) {
            None => None,
            Some(sending) => {
                let landed = app.session(id@) matches Some(session) && session.msg_count
                    > sending.baseline_msg_count;
                Some(
                    PendingReplyView {
                        echo: if landed {
                            None
                        } else {
                            Some(sending.message@)
                        },
                        label: spinner_at(app.tick) + " "@ + REPLY_COOKING_LABEL@,
                    },
                )
            },
        },
    }
}

/// The turns of the reply that is on its way to the selected session.
pub fn sending_tail(app: &App) -> (tail: Option<PendingReply>)
    ensures
        match tail {
            Some(tail) => pending_reply(*app) == Some(tail@),
            None => pending_reply(*app) is None,
        },
{
    let selected = match &app.selected {
        Some(id) => id.as_str(),
        None => {
            return None;
        },
    };
    let sending = match app.sending_to(selected) {
        Some(sending) => sending,
        None => {
            return None;
        },
    };
    let landed = match app.session_by_id(selected) {
        Some(session) => session.msg_count > sending.baseline_msg_count,
        None => false,
    };
    let echo = if landed {
        None
    } else {
        Some(sending.message.clone())
    };
    let label = concat3(spinner_frame(app.tick), " ", REPLY_COOKING_LABEL);
    Some(PendingReply { echo, label })
}

/// A rendered transcript: its lines, the row map that they were measured to, the
/// positions that the query matched on each line, and the line that a jump to a
/// match leads to.
#[derive(Debug)]
pub struct Transcript {
    pub lines: Vec<Line>,
    pub row_prefix: Vec<usize>,
    pub matches: Option<HashMap<usize, HashSet<usize>>>,
    pub match_target: Option<usize>,
}

impl Transcript {
    /// The row map has an entry for each line and one more.
    pub open spec fn valid(self) -> bool {
        self.row_prefix@.len() == self.lines@.len() + 1 && is_row_map(self.row_prefix@)
    }

    /// How many rows the transcript takes.
    pub open spec fn rows(self) -> int {
        self.row_prefix@.last() as int
    }

    /// The line `i`, with what the query matched on it marked.
    pub open spec fn marked(self, i: int) -> LineView {
        let line = self.lines@[i]@;
        match self.matches {
            Some(matches) => if matches@.contains_key(i as usize) {
                LineView {
                    spans: marked_spans(line.spans, matches@[i as usize]@, Modifier::reversed()),
                    ..line
                }
            } else {
                line
            },
            None => line,
        }
    }

    /// The lines `from..to`, marked.
    pub open spec fn marked_lines(self, from: int, to: int) -> Seq<LineView> {
        Seq::new((to - from) as nat, |i: int| self.marked(from + i))
    }

    /// All of the lines, marked.
    pub open spec fn shown(self) -> Seq<LineView> {
        self.marked_lines(0, self.lines@.len() as int)
    }

    /// Whether marking leaves the clusters of the lines `from..to` as they are.
    pub open spec fn marks_keep_clusters(self, from: int, to: int) -> bool {
        forall|i: int|
            from <= i < to ==> clusters_of(span_texts((#[trigger] self.marked(i)).spans))
                == clusters_of(span_texts(self.lines@[i]@.spans))
    }

    /// The transcript of `lines`, measured in a pane of `width` columns.
    pub fn measured(
        lines: Vec<Line>,
        width: u16,
        matches: Option<HashMap<usize, HashSet<usize>>>,
        match_target: Option<usize>,
    ) -> (transcript: Transcript)
        requires
            width <= MAX_PANE_WIDTH,
        ensures
            transcript.lines == lines,
            transcript.row_prefix@ == row_map(line_views(lines@), width as int),
            transcript.valid(),
            transcript.matches == matches,
            transcript.match_target == match_target,
    {
        let row_prefix = wrapped_row_prefix(lines.as_slice(), width);
        Transcript { lines, row_prefix, matches, match_target }
    }

    /// Copy the lines `from..to`, marked.
    fn window(&self, from: usize, to: usize) -> (out: Vec<Line>)
        requires
            self.valid(),
            from <= to <= self.lines@.len(),
        ensures
            line_views(out@) == self.marked_lines(from as int, to as int),
            self.marks_keep_clusters(from as int, to as int),
    {
        let ghost wanted = self.marked_lines(from as int, to as int);
        let mut out: Vec<Line> = Vec::new();
        let mut i: usize = from;
        assert(line_views(out@) =~= wanted.take(0));
        while i < to
            invariant
                self.valid(),
                from <= i <= to <= self.lines@.len(),
                wanted == self.marked_lines(from as int, to as int),
                line_views(out@) == wanted.take(i - from),
                self.marks_keep_clusters(from as int, i as int),
            decreases to - i,
        {
            let line = &self.lines[i];
            let shown = match &self.matches {
                Some(matches) => match matches.get(&i) {
                    Some(matched) => highlight_matched_spans(line, matched, Modifier::reversed()),
                    None => line.copy(),
                },
                None => line.copy(),
            };
            assert(shown@ == self.marked(i as int));
            out.push(shown);
            assert(wanted.take(i + 1 - from) =~= wanted.take(i - from).push(wanted[i - from]));
            i += 1;
        }
        assert(wanted.take(to - from) =~= wanted);
        out
    }
}

/// Whether the open draft's box is docked in the pane: one is open, and the pane
/// is tall enough.
pub open spec fn docks(app: App, area: Rect) -> bool {
    app.compose is Some && inner_of(area).height >= COMPOSE_MIN_DOCK_HEIGHT
}

/// The banner, the transcript and the docked box of the pane.
pub open spec fn pane_split(app: App, area: Rect) -> (Rect, Rect, Rect) {
    compose_split(
        area,
        banner_line(app) is Some,
        if docks(app, area) {
            text_rows(app) + 2
        } else {
            0
        },
    )
}

/// Cut the pane into its banner, its transcript and its docked box.
pub fn preview_areas(app: &App, area: Rect) -> (split: (Rect, Rect, Rect))
    ensures
        split == pane_split(*app, area),
        split.1.width == inner_of(area).width,
{
    let has_banner = preview_banner(app).is_some();
    let dock = app.compose.is_some() && preview_inner(area).height >= COMPOSE_MIN_DOCK_HEIGHT;
    let compose_h: u16 = if dock {
        compose_zone_height(app)
    } else {
        0
    };
    preview_compose_split(area, has_banner, compose_h)
}

/// The card that the pane shows in place of a transcript.
pub open spec fn shown_card(app: App) -> Option<Seq<LineView>> {
    match app.draft {
        Some(draft) => Some(card_lines(draft, app.launch_dir@, app.tick)),
        None => None,
    }
}

/// The turns of a pending reply that the pane shows, where `tail` is how they
/// render. A card leaves them no place.
pub open spec fn shown_tail(app: App, tail: Seq<LineView>) -> Option<Seq<LineView>> {
    if app.draft is None && pending_reply(app) is Some {
        Some(tail)
    } else {
        None
    }
}

/// The rows that lines take, held at the largest `usize`.
pub open spec fn height_of(lines: Seq<LineView>, width: int) -> int {
    least(rows_of(lines, width) as int, usize::MAX as int)
}

/// The rows of what the pane shows: a card's, or the transcript's and those of a
/// pending reply.
pub open spec fn content_height(
    app: App,
    transcript: Transcript,
    tail: Seq<LineView>,
    width: int,
) -> int {
    match shown_card(app) {
        Some(card) => height_of(card, width),
        None => match shown_tail(app, tail) {
            Some(tail) => capped_rows(transcript.rows(), height_of(tail, width)),
            None => transcript.rows(),
        },
    }
}

/// Where a pending jump to a match leads. A card drops it.
pub open spec fn pane_jump(app: App, transcript: Transcript, viewport_h: int) -> Option<int> {
    if app.preview_match_jump && app.draft is None {
        match transcript.match_target {
            Some(line) => if line < transcript.row_prefix@.len() {
                Some(jump_offset(transcript.row_prefix@[line as int] as int, viewport_h))
            } else {
                None
            },
            None => None,
        }
    } else {
        None
    }
}

/// The first row of the content that the pane shows. A jump goes before the
/// pane's own offset, and the pane keeps to the last row only without one; a card
/// never keeps to its last row.
pub open spec fn pane_offset(
    app: App,
    transcript: Transcript,
    tail: Seq<LineView>,
    inner: Rect,
) -> int {
    let jump = pane_jump(app, transcript, inner.height as int);
    clamped_offset(
        app.draft is None && app.preview_follow_bottom && jump is None,
        match jump {
            Some(offset) => offset,
            None => app.preview_scroll as int,
        },
        content_height(app, transcript, tail, inner.width as int),
        inner.height as int,
    )
}

/// Whether there is nothing to show: no card, no pending reply, no transcript, no
/// banner and no draft.
pub open spec fn pane_empty(app: App, transcript: Transcript, area: Rect) -> bool {
    &&& app.draft is None
    &&& pending_reply(app) is None
    &&& transcript.lines@.len() == 0
    &&& banner_line(app) is None
    &&& !docks(app, area)
}

/// The lines that the viewport reaches from the row `offset` on, and the rows to
/// skip inside the first. The turns of a pending reply follow the transcript once
/// the viewport reaches them.
pub open spec fn pane_window(
    app: App,
    transcript: Transcript,
    tail: Seq<LineView>,
    inner: Rect,
    offset: int,
) -> (Seq<LineView>, int) {
    let width = inner.width as int;
    let viewport_h = inner.height as int;
    match shown_card(app) {
        Some(card) => {
            let (start, end, residual) = window_of(row_map(card, width), offset, viewport_h);
            (card.subrange(start, end), residual)
        },
        None => {
            let (start, end, residual) = window_of(transcript.row_prefix@, offset, viewport_h);
            let above = transcript.marked_lines(start, end);
            match shown_tail(app, tail) {
                Some(tail) => if capped_rows(offset, viewport_h) > transcript.rows() {
                    let (tail_start, tail_end, tail_residual) = window_of(
                        row_map(tail, width),
                        floored_difference(offset, transcript.rows()),
                        viewport_h,
                    );
                    (
                        above + tail.subrange(tail_start, tail_end),
                        if above.len() == 0 {
                            tail_residual
                        } else {
                            residual
                        },
                    )
                } else {
                    (above, residual)
                },
                None => (above, residual),
            }
        },
    }
}

/// The arrow at the top of the scrollbar.
pub const SCROLLBAR_BEGIN_ARROW: &'static str = "↑";

/// The arrow at the bottom of the scrollbar.
pub const SCROLLBAR_END_ARROW: &'static str = "↓";

/// What stands in an arrow's place where it is not shown.
pub const SCROLLBAR_ARROW_HIDDEN: &'static str = " ";

/// The scrollbar of content that overflows the transcript's area: it describes
/// the whole content, and an arrow shows only at the edge that it points to.
pub open spec fn bar_view(area: Rect, inner: Rect, content_h: int, offset: int) -> ScrollbarView {
    let viewport_h = inner.height as int;
    let max_offset = max_offset_of(content_h, viewport_h);
    let content_length = capped_rows(content_h - viewport_h, 1);
    ScrollbarView {
        area: Rect { x: area.x, y: inner.y, width: area.width, height: inner.height },
        content_length: content_length as usize,
        position: thumb_position(
            offset,
            max_offset,
            content_length,
            content_h,
            floored_difference(viewport_h, 2),
        ) as usize,
        viewport: inner.height as usize,
        begin: if offset == 0 {
            SCROLLBAR_BEGIN_ARROW@
        } else {
            SCROLLBAR_ARROW_HIDDEN@
        },
        end: if offset >= max_offset {
            SCROLLBAR_END_ARROW@
        } else {
            SCROLLBAR_ARROW_HIDDEN@
        },
        style: Style::plain().add_modifier(Modifier::dim()),
    }
}

/// Build the scrollbar of content that overflows the transcript's area.
fn build_bar(area: Rect, inner: Rect, content_h: usize, offset: u32) -> (bar: Scrollbar)
    requires
        content_h > inner.height,
    ensures
        bar@ == bar_view(area, inner, content_h as int, offset as int),
{
    let viewport_h: u16 = inner.height;
    let max_offset = max_preview_offset(content_h, viewport_h);
    let content_length: usize = (content_h - viewport_h as usize).saturating_add(1);
    let track_length: u16 = viewport_h.saturating_sub(2);
    let position = scrollbar_thumb_position(
        offset,
        max_offset,
        content_length,
        content_h,
        track_length,
    );
    let begin = if offset == 0 {
        SCROLLBAR_BEGIN_ARROW
    } else {
        SCROLLBAR_ARROW_HIDDEN
    };
    let end = if offset >= max_offset {
        SCROLLBAR_END_ARROW
    } else {
        SCROLLBAR_ARROW_HIDDEN
    };
    Scrollbar {
        area: Rect { x: area.x, y: inner.y, width: area.width, height: inner.height },
        content_length,
        position,
        viewport: viewport_h as usize,
        begin: begin.to_owned(),
        end: end.to_owned(),
        style: Style::plain().add_modifier(Modifier::dim()),
    }
}

/// What a pane without anything to show says.
pub open spec fn empty_pane_draws(area: Rect) -> Seq<DrawView> {
    seq![
        DrawView::Text(
            ParagraphView {
                style: Style::plain().add_modifier(Modifier::dim()),
                frame: Some(titled(" preview "@)),
                ..plain_paragraph(
                    seq![plain_line(seq![raw_span("No session selected."@)])],
                    area,
                )
            },
        ),
    ]
}

/// The banner, where there is one.
pub open spec fn banner_draws(app: App, banner_area: Rect) -> Seq<DrawView> {
    match banner_line(app) {
        Some(line) => seq![DrawView::Text(plain_paragraph(seq![line], banner_area))],
        None => seq![],
    }
}

/// The lines in view, wrapped, from the row `residual` of the first on.
pub open spec fn text_view(lines: Seq<LineView>, residual: int, inner: Rect) -> ParagraphView {
    ParagraphView {
        wrap: true,
        scroll: least(residual, u16::MAX as int) as u16,
        ..plain_paragraph(lines, inner)
    }
}

/// The scrollbar, where the content overflows.
pub open spec fn bar_draws(area: Rect, inner: Rect, content_h: int, offset: int) -> Seq<DrawView> {
    if content_h > inner.height {
        seq![DrawView::Scroll(bar_view(area, inner, content_h, offset))]
    } else {
        seq![]
    }
}

/// The box of the open draft, where it is docked.
pub open spec fn docked_draws(app: App, area: Rect, compose_area: Rect) -> Seq<DrawView> {
    if docks(app, area) {
        zone_draws(app, compose_area)
    } else {
        seq![]
    }
}

/// What a pane with something to show is drawn of: its border, its banner, the
/// lines in view, the scrollbar, and the box of the open draft.
pub open spec fn full_pane_draws(
    app: App,
    area: Rect,
    transcript: Transcript,
    tail: Seq<LineView>,
) -> Seq<DrawView> {
    let (banner_area, inner, compose_area) = pane_split(app, area);
    let content_h = content_height(app, transcript, tail, inner.width as int);
    let offset = pane_offset(app, transcript, tail, inner);
    let (lines, residual) = pane_window(app, transcript, tail, inner, offset);
    seq![DrawView::Border(area, titled(" preview "@))] + banner_draws(app, banner_area) + seq![
        DrawView::Text(text_view(lines, residual, inner)),
    ] + bar_draws(area, inner, content_h, offset) + docked_draws(app, area, compose_area)
}

/// What the pane is drawn of.
pub open spec fn preview_draws(
    app: App,
    area: Rect,
    transcript: Transcript,
    tail: Seq<LineView>,
) -> Seq<DrawView> {
    if pane_empty(app, transcript, area) {
        empty_pane_draws(area)
    } else {
        full_pane_draws(app, area, transcript, tail)
    }
}

/// The state that a drawn pane leaves: the offset and the height that it was
/// drawn with, no pending jump, and no hold on the last row after a jump. A card
/// leaves the transcript's offset alone.
pub open spec fn after_preview(
    app: App,
    area: Rect,
    transcript: Transcript,
    tail: Seq<LineView>,
) -> App {
    let inner = pane_split(app, area).1;
    if pane_empty(app, transcript, area) {
        App {
            preview_match_jump: false,
            preview_viewport_h: inner.height,
            preview_scroll: 0,
            ..app
        }
    } else {
        App {
            preview_match_jump: false,
            preview_viewport_h: inner.height,
            preview_scroll: if app.draft is None {
                pane_offset(app, transcript, tail, inner) as u32
            } else {
                app.preview_scroll
            },
            preview_follow_bottom: app.preview_follow_bottom && pane_jump(
                app,
                transcript,
                inner.height as int,
            ) is None,
            ..app
        }
    }
}

/// Whether the first of a reply's turns takes a row.
pub open spec fn turns_take_rows(turns: Seq<LineView>, width: int) -> bool {
    turns.len() > 0 ==> row_map(turns, width)[1] > 0
}

/// Whether what a frame of the pane draws takes the rows that were measured: the
/// marks in view leave each line its clusters, and where the pane has a column, the
/// first of a pending reply's turns takes a row.
pub open spec fn drawn_as_measured(
    app: App,
    area: Rect,
    transcript: Transcript,
    tail: Seq<LineView>,
) -> bool {
    let inner = pane_split(app, area).1;
    let offset = pane_offset(app, transcript, tail, inner);
    let (start, end, _) = window_of(transcript.row_prefix@, offset, inner.height as int);
    app.draft is None && !pane_empty(app, transcript, area) ==> {
        &&& transcript.marks_keep_clusters(start, end)
        &&& shown_tail(app, tail) is Some && inner.width > 0 ==> turns_take_rows(
            tail,
            inner.width as int,
        )
    }
}

/// The lines that a viewport reaches from the row `offset` on, and the rows to skip
/// inside the first.
fn window_lines(lines: &Vec<Line>, prefix: &Vec<usize>, offset: usize, viewport_h: u16) -> (out: (
    Vec<Line>,
    usize,
))
    requires
        is_row_map(prefix@),
        prefix@.len() == lines@.len() + 1,
    ensures
        ({
            let (start, end, residual) = window_of(prefix@, offset as int, viewport_h as int);
            line_views(out.0@) == line_views(lines@).subrange(start, end) && out.1 == residual
        }),
{
    let (range, residual) = row_window(prefix.as_slice(), offset, viewport_h);
    (copy_lines(lines, range.start, range.end), residual)
}

/// What a frame of the pane is drawn from.
struct Pane {
    card: Option<Vec<Line>>,
    has_tail: bool,
    content_h: usize,
    jump: Option<u32>,
    offset: u32,
}

/// Resolve what the pane shows and where it stands.
fn resolve_pane(app: &App, inner: Rect, transcript: &Transcript, tail: &Vec<Line>) -> (pane: Pane)
    requires
        transcript.valid(),
        inner.width <= MAX_PANE_WIDTH,
    ensures
        match pane.card {
            Some(lines) => shown_card(*app) == Some(line_views(lines@)),
            None => shown_card(*app) is None,
        },
        pane.has_tail == (shown_tail(*app, line_views(tail@)) is Some),
        pane.content_h == content_height(
            *app,
            *transcript,
            line_views(tail@),
            inner.width as int,
        ),
        match pane.jump {
            Some(offset) => pane_jump(*app, *transcript, inner.height as int) == Some(
                offset as int,
            ),
            None => pane_jump(*app, *transcript, inner.height as int) is None,
        },
        pane.offset == pane_offset(*app, *transcript, line_views(tail@), inner),
        app.draft is Some ==> reads_as_spelled(app.launch_dir@),
        pane.has_tail && inner.width > 0 ==> turns_take_rows(
            line_views(tail@),
            inner.width as int,
        ),
{
    let card = match &app.draft {
        Some(draft) => Some(draft_card(draft, app.launch_dir.as_slice(), app.tick)),
        None => None,
    };
    let has_tail = card.is_none() && sending_tail(app).is_some();
    let transcript_rows: usize = transcript.row_prefix[transcript.row_prefix.len() - 1];
    let content_h: usize = match &card {
        Some(lines) => {
            let prefix = wrapped_row_prefix(lines.as_slice(), inner.width);
            prefix[prefix.len() - 1]
        },
        None => {
            if has_tail {
                let prefix = wrapped_row_prefix(tail.as_slice(), inner.width);
                proof {
                    let first: int = 0;
                    assert(tail@.len() > 0 && inner.width > 0 ==> prefix@[first] < prefix@[first
                        + 1] || prefix@[first + 1] == usize::MAX);
                }
                transcript_rows.saturating_add(prefix[prefix.len() - 1])
            } else {
                transcript_rows
            }
        },
    };
    let jump: Option<u32> = if app.preview_match_jump && card.is_none() {
        match transcript.match_target {
            Some(line) => {
                if line < transcript.row_prefix.len() {
                    Some(match_jump_offset(transcript.row_prefix[line], inner.height))
                } else {
                    None
                }
            },
            None => None,
        }
    } else {
        None
    };
    let follow_bottom = card.is_none() && app.preview_follow_bottom && jump.is_none();
    let requested: u32 = match jump {
        Some(offset) => offset,
        None => app.preview_scroll,
    };
    let offset = clamp_preview_offset(follow_bottom, requested, content_h, inner.height);
    Pane { card, has_tail, content_h, jump, offset }
}

/// The lines that the viewport reaches, and the rows to skip inside the first.
fn resolve_window(
    app: &App,
    inner: Rect,
    transcript: &Transcript,
    tail: &Vec<Line>,
    pane: &Pane,
) -> (out: (Vec<Line>, usize))
    requires
        transcript.valid(),
        inner.width <= MAX_PANE_WIDTH,
        match pane.card {
            Some(lines) => shown_card(*app) == Some(line_views(lines@)),
            None => shown_card(*app) is None,
        },
        pane.has_tail == (shown_tail(*app, line_views(tail@)) is Some),
    ensures
        ({
            let (lines, residual) = pane_window(
                *app,
                *transcript,
                line_views(tail@),
                inner,
                pane.offset as int,
            );
            line_views(out.0@) == lines && out.1 == residual
        }),
        ({
            let (start, end, _) = window_of(
                transcript.row_prefix@,
                pane.offset as int,
                inner.height as int,
            );
            shown_card(*app) is None ==> transcript.marks_keep_clusters(start, end)
        }),
{
    let offset: usize = pane.offset as usize;
    if let Some(lines) = &pane.card {
        let prefix = wrapped_row_prefix(lines.as_slice(), inner.width);
        return window_lines(lines, &prefix, offset, inner.height);
    }
    let (range, top) = row_window(transcript.row_prefix.as_slice(), offset, inner.height);
    let mut window = transcript.window(range.start, range.end);
    let mut residual: usize = top;
    let ghost above = line_views(window@);
    let transcript_rows: usize = transcript.row_prefix[transcript.row_prefix.len() - 1];
    if pane.has_tail && offset.saturating_add(inner.height as usize) > transcript_rows {
        let prefix = wrapped_row_prefix(tail.as_slice(), inner.width);
        let (mut below, tail_residual) = window_lines(
            tail,
            &prefix,
            offset.saturating_sub(transcript_rows),
            inner.height,
        );
        if window.len() == 0 {
            residual = tail_residual;
        }
        let ghost more = line_views(below@);
        window.append(&mut below);
        assert(line_views(window@) =~= above + more);
    }
    (window, residual)
}

/// Draw a pane without anything to show.
fn draw_empty(area: Rect) -> (draws: Vec<Draw>)
    ensures
        draw_views(draws@) == empty_pane_draws(area),
{
    let mut paragraph = Paragraph::of_line(
        Line::from_span(Span::raw("No session selected.")),
        area,
    );
    paragraph.style = Style::plain().add_modifier(Modifier::dim());
    paragraph.frame = Some(Frame::titled(" preview "));
    let mut draws: Vec<Draw> = Vec::new();
    draws.push(Draw::Text(paragraph));
    assert(draw_views(draws@) =~= empty_pane_draws(area));
    draws
}

/// Draw the lines in view.
fn draw_text(lines: Vec<Line>, residual: usize, inner: Rect) -> (draw: Draw)
    ensures
        draw@ == DrawView::Text(text_view(line_views(lines@), residual as int, inner)),
{
    let mut text = Paragraph::plain(lines, inner);
    text.wrap = true;
    text.scroll = if residual > u16::MAX as usize {
        u16::MAX
    } else {
        residual as u16
    };
    Draw::Text(text)
}

/// Draw a pane with something to show.
fn draw_pane(
    app: &App,
    area: Rect,
    transcript: &Transcript,
    tail: &Vec<Line>,
    pane: &Pane,
) -> (draws: Vec<Draw>)
    requires
        transcript.valid(),
        area.width <= MAX_PANE_WIDTH,
        match pane.card {
            Some(lines) => shown_card(*app) == Some(line_views(lines@)),
            None => shown_card(*app) is None,
        },
        pane.has_tail == (shown_tail(*app, line_views(tail@)) is Some),
        pane.content_h == content_height(
            *app,
            *transcript,
            line_views(tail@),
            pane_split(*app, area).1.width as int,
        ),
        pane.offset == pane_offset(
            *app,
            *transcript,
            line_views(tail@),
            pane_split(*app, area).1,
        ),
    ensures
        draw_views(draws@) == full_pane_draws(*app, area, *transcript, line_views(tail@)),
        ({
            let (start, end, _) = window_of(
                transcript.row_prefix@,
                pane.offset as int,
                pane_split(*app, area).1.height as int,
            );
            shown_card(*app) is None ==> transcript.marks_keep_clusters(start, end)
        }),
{
    let (banner_area, inner, compose_area) = preview_areas(app, area);
    let (lines, residual) = resolve_window(app, inner, transcript, tail, pane);
    let ghost shown = line_views(lines@);
    let mut draws: Vec<Draw> = Vec::new();
    draws.push(Draw::Border(area, Frame::titled(" preview ")));
    let ghost border = draw_views(draws@);
    assert(border =~= seq![DrawView::Border(area, titled(" preview "@))]);
    if let Some(line) = preview_banner(app) {
        draws.push(Draw::Text(Paragraph::of_line(line, banner_area)));
    }
    let ghost led = draw_views(draws@);
    assert(led =~= border + banner_draws(*app, banner_area));
    draws.push(draw_text(lines, residual, inner));
    let ghost filled = draw_views(draws@);
    assert(filled =~= led + seq![DrawView::Text(text_view(shown, residual as int, inner))]);
    if pane.content_h > inner.height as usize {
        draws.push(Draw::Scroll(build_bar(area, inner, pane.content_h, pane.offset)));
    }
    let ghost barred = draw_views(draws@);
    assert(barred =~= filled + bar_draws(
        area,
        inner,
        pane.content_h as int,
        pane.offset as int,
    ));
    if app.compose.is_some() && preview_inner(area).height >= COMPOSE_MIN_DOCK_HEIGHT {
        let zone = render_compose_zone(app, compose_area);
        append(&mut draws, zone);
    }
    assert(draw_views(draws@) =~= barred + docked_draws(*app, area, compose_area));
    draws
}

/// Draw the preview of the selected session. `tail` is how the turns of a pending
/// reply render, where there is one.
pub fn render_preview(
    app: &mut App,
    area: Rect,
    transcript: &Transcript,
    tail: &Vec<Line>,
) -> (draws: Vec<Draw>)
    requires
        transcript.valid(),
        area.width <= MAX_PANE_WIDTH,
    ensures
        draw_views(draws@) == preview_draws(*old(app), area, *transcript, line_views(tail@)),
        *final(app) == after_preview(*old(app), area, *transcript, line_views(tail@)),
        old(app).draft is Some ==> reads_as_spelled(old(app).launch_dir@),
        drawn_as_measured(*old(app), area, *transcript, line_views(tail@)),
{
    let (_banner_area, inner, _compose_area) = preview_areas(app, area);
    let dock = app.compose.is_some() && preview_inner(area).height >= COMPOSE_MIN_DOCK_HEIGHT;
    let empty = app.draft.is_none() && sending_tail(app).is_none() && transcript.lines.len() == 0
        && preview_banner(app).is_none() && !dock;
    if empty {
        app.preview_match_jump = false;
        app.preview_viewport_h = inner.height;
        app.preview_scroll = 0;
        return draw_empty(area);
    }
    let pane = resolve_pane(app, inner, transcript, tail);
    let draws = draw_pane(app, area, transcript, tail, &pane);
    if pane.jump.is_some() {
        app.preview_follow_bottom = false;
    }
    if app.draft.is_none() {
        app.preview_scroll = pane.offset;
    }
    app.preview_match_jump = false;
    app.preview_viewport_h = inner.height;
    draws
}

/// What the pane shows does not depend on where it stands.
proof fn lemma_frames_share_their_content(
    a: App,
    b: App,
    area: Rect,
    transcript: Transcript,
    tail: Seq<LineView>,
)
    requires
        b == (App {
            preview_match_jump: b.preview_match_jump,
            preview_viewport_h: b.preview_viewport_h,
            preview_scroll: b.preview_scroll,
            preview_follow_bottom: b.preview_follow_bottom,
            ..a
        }),
    ensures
        banner_line(a) == banner_line(b),
        pending_reply(a) == pending_reply(b),
        shown_card(a) == shown_card(b),
        shown_tail(a, tail) == shown_tail(b, tail),
        docks(a, area) == docks(b, area),
        pane_split(a, area) == pane_split(b, area),
        pane_empty(a, transcript, area) == pane_empty(b, transcript, area),
        forall|width: int|
            #![trigger content_height(b, transcript, tail, width)]
            content_height(a, transcript, tail, width) == content_height(
                b,
                transcript,
                tail,
                width,
            ),
        forall|inner: Rect, offset: int|
            #![trigger pane_window(b, transcript, tail, inner, offset)]
            pane_window(a, transcript, tail, inner, offset) == pane_window(
                b,
                transcript,
                tail,
                inner,
                offset,
            ),
        forall|at: Rect| #[trigger] zone_draws(b, at) == zone_draws(a, at),
{
}

/// A frame settles: drawn again with nothing changed in between, the pane shows
/// the same, and leaves the same state.
pub proof fn lemma_a_frame_settles(
    app: App,
    area: Rect,
    transcript: Transcript,
    tail: Seq<LineView>,
)
    requires
        transcript.valid(),
    ensures
        ({
            let after = after_preview(app, area, transcript, tail);
            &&& preview_draws(after, area, transcript, tail) == preview_draws(
                app,
                area,
                transcript,
                tail,
            )
            &&& after_preview(after, area, transcript, tail) == after
        }),
{
    let after = after_preview(app, area, transcript, tail);
    lemma_frames_share_their_content(app, after, area, transcript, tail);
    let inner = pane_split(app, area).1;
    let content_h = content_height(app, transcript, tail, inner.width as int);
    assert(content_h >= 0);
    if !pane_empty(app, transcript, area) {
        let jump = pane_jump(app, transcript, inner.height as int);
        assert(pane_jump(after, transcript, inner.height as int) is None);
        assert(0 <= pane_offset(app, transcript, tail, inner) <= u32::MAX);
        assert(pane_offset(after, transcript, tail, inner) == pane_offset(
            app,
            transcript,
            tail,
            inner,
        ));
    }
}

/// A jump is asked for once: whatever the pane shows, the frame leaves no jump
/// pending.
pub proof fn lemma_every_frame_consumes_the_jump(
    app: App,
    area: Rect,
    transcript: Transcript,
    tail: Seq<LineView>,
)
    ensures
        !after_preview(app, area, transcript, tail).preview_match_jump,
{
}

/// A card hands the transcript back as it found it: neither the offset nor the
/// hold on the last row changes while a draft is open.
pub proof fn lemma_a_card_leaves_the_transcript_alone(
    app: App,
    area: Rect,
    transcript: Transcript,
    tail: Seq<LineView>,
)
    requires
        app.draft is Some,
    ensures
        ({
            let after = after_preview(app, area, transcript, tail);
            &&& after.preview_scroll == app.preview_scroll
            &&& after.preview_follow_bottom == app.preview_follow_bottom
        }),
{
}

/// A pane stays where its reader put it: no frame makes it follow the last row, and
/// one that does not follow stands, without a jump, at its own offset wherever the
/// content reaches that far, however the content grew in between.
pub proof fn lemma_a_frame_never_takes_the_pane_back(
    app: App,
    area: Rect,
    transcript: Transcript,
    tail: Seq<LineView>,
)
    requires
        !app.preview_follow_bottom,
    ensures
        !after_preview(app, area, transcript, tail).preview_follow_bottom,
        ({
            let inner = pane_split(app, area).1;
            let content_h = content_height(app, transcript, tail, inner.width as int);
            app.draft is None && !app.preview_match_jump && !pane_empty(app, transcript, area)
                && app.preview_scroll <= max_offset_of(content_h, inner.height as int)
                ==> after_preview(app, area, transcript, tail).preview_scroll
                == app.preview_scroll
        }),
{
}

/// A pane that follows shows the newest row: without a card and without a jump,
/// the last row of the viewport is the last row of the content, pending reply
/// included, wherever the content overflows.
pub proof fn lemma_a_following_pane_shows_the_newest_row(
    app: App,
    area: Rect,
    transcript: Transcript,
    tail: Seq<LineView>,
)
    requires
        app.draft is None,
        app.preview_follow_bottom,
        !app.preview_match_jump,
    ensures
        ({
            let inner = pane_split(app, area).1;
            let content_h = content_height(app, transcript, tail, inner.width as int);
            inner.height <= content_h <= u32::MAX ==> pane_offset(app, transcript, tail, inner)
                + inner.height == content_h
        }),
{
}

/// A jump shows the match: the line that it leads to starts inside the viewport,
/// and the pane no longer holds to its last row.
pub proof fn lemma_a_jump_shows_the_match(
    app: App,
    area: Rect,
    transcript: Transcript,
    tail: Seq<LineView>,
    line: usize,
)
    requires
        transcript.valid(),
        app.draft is None,
        app.preview_match_jump,
        transcript.match_target == Some(line),
        line < transcript.lines@.len(),
        transcript.row_prefix@[line as int] < transcript.rows() <= u32::MAX,
        pane_split(app, area).1.height > 0,
    ensures
        ({
            let inner = pane_split(app, area).1;
            let offset = pane_offset(app, transcript, tail, inner);
            let row = transcript.row_prefix@[line as int];
            &&& offset <= row < offset + inner.height
            &&& !after_preview(app, area, transcript, tail).preview_follow_bottom
            &&& after_preview(app, area, transcript, tail).preview_scroll == offset
        }),
{
    let inner = pane_split(app, area).1;
    let content_h = content_height(app, transcript, tail, inner.width as int);
    assert(content_h >= transcript.rows());
    crate::scroll::lemma_a_jump_shows_its_line(
        transcript.row_prefix@[line as int] as int,
        content_h,
        inner.height as int,
    );
}

/// The banner gives way: a draft and a reply that is on its way to the selected
/// session leave it no row, so the transcript starts at the top of the pane.
pub proof fn lemma_a_draft_or_a_reply_leaves_no_banner(app: App, area: Rect)
    requires
        app.draft is Some || (app.selected matches Some(id) && app.reply_to(id@) is Some),
    ensures
        banner_line(app) is None,
        pane_split(app, area).0 == Rect::none(),
        pane_split(app, area).1.y == inner_of(area).y,
{
}

/// The lines in view are a stretch of the marked transcript, in order; without a
/// query that is the transcript itself.
pub proof fn lemma_a_window_is_a_stretch_of_the_transcript(
    transcript: Transcript,
    from: int,
    to: int,
)
    requires
        0 <= from <= to <= transcript.lines@.len(),
    ensures
        transcript.marked_lines(from, to) == transcript.shown().subrange(from, to),
        transcript.shown().len() == transcript.lines@.len(),
        transcript.matches is None ==> transcript.shown() == line_views(transcript.lines@),
{
    assert(transcript.marked_lines(from, to) =~= transcript.shown().subrange(from, to));
    if transcript.matches is None {
        assert(transcript.shown() =~= line_views(transcript.lines@));
    }
}

/// A docked box leaves the transcript its rows, however long the draft is.
pub proof fn lemma_a_docked_box_leaves_the_transcript_its_rows(app: App, area: Rect)
    requires
        docks(app, area),
    ensures
        pane_split(app, area).1.height >= COMPOSE_MIN_TRANSCRIPT_ROWS,
        pane_split(app, area).2.height == text_rows(app) + 2,
{
}

/// What a pane without a card shows in full: the transcript, marked, and the turns
/// of a pending reply below it.
pub open spec fn whole_content(app: App, transcript: Transcript, tail: Seq<LineView>) -> Seq<
    LineView,
> {
    match shown_tail(app, tail) {
        Some(turns) => transcript.shown() + turns,
        None => transcript.shown(),
    }
}

/// What a pane without a card was measured by: the transcript as it is, and the
/// turns of a pending reply below it.
pub open spec fn measured_content(app: App, transcript: Transcript, tail: Seq<LineView>) -> Seq<
    LineView,
> {
    match shown_tail(app, tail) {
        Some(turns) => line_views(transcript.lines@) + turns,
        None => line_views(transcript.lines@),
    }
}

/// Marking never moves a row: where it leaves the lines their clusters, they take
/// the rows that they take without marks.
pub proof fn lemma_marks_never_move_a_row(transcript: Transcript, from: int, to: int, width: int)
    requires
        0 <= from <= to <= transcript.lines@.len(),
        transcript.marks_keep_clusters(from, to),
    ensures
        row_map(transcript.marked_lines(from, to), width) == row_map(
            line_views(transcript.lines@).subrange(from, to),
            width,
        ),
{
    let marked = transcript.marked_lines(from, to);
    let plain = line_views(transcript.lines@).subrange(from, to);
    assert forall|i: int| 0 <= i < marked.len() implies clusters_of(
        span_texts((#[trigger] marked[i]).spans),
    ) == clusters_of(span_texts(plain[i].spans)) by {
        assert(marked[i] == transcript.marked(from + i));
    }
    lemma_rows_go_by_clusters(marked, plain, width);
}

/// The transcript with its lines `start..end` marked takes the rows that it was
/// measured to, with and without `turns` below it.
proof fn lemma_marks_in_view_keep_the_rows(
    transcript: Transcript,
    turns: Seq<LineView>,
    start: int,
    end: int,
    width: int,
) -> (own: Seq<LineView>)
    requires
        0 <= start <= end <= transcript.lines@.len(),
        transcript.marks_keep_clusters(start, end),
    ensures
        own.len() == transcript.lines@.len(),
        forall|i: int| start <= i < end ==> #[trigger] own[i] == transcript.marked(i),
        own.subrange(start, end) == transcript.marked_lines(start, end),
        row_map(own, width) == row_map(line_views(transcript.lines@), width),
        rows_of(own, width) == rows_of(line_views(transcript.lines@), width),
        row_map(own + turns, width) == row_map(line_views(transcript.lines@) + turns, width),
        rows_of(own + turns, width) == rows_of(line_views(transcript.lines@) + turns, width),
{
    let plain = line_views(transcript.lines@);
    let own = Seq::new(
        plain.len(),
        |i: int|
            if start <= i < end {
                transcript.marked(i)
            } else {
                plain[i]
            },
    );
    assert(own.subrange(start, end) =~= transcript.marked_lines(start, end));
    assert forall|i: int| 0 <= i < own.len() implies clusters_of(
        span_texts((#[trigger] own[i]).spans),
    ) == clusters_of(span_texts(plain[i].spans)) by {}
    lemma_rows_go_by_clusters(own, plain, width);
    assert forall|i: int| 0 <= i < (own + turns).len() implies clusters_of(
        span_texts((#[trigger] (own + turns)[i]).spans),
    ) == clusters_of(span_texts((plain + turns)[i].spans)) by {
        if i < own.len() {
            assert((own + turns)[i] == own[i]);
        }
    }
    lemma_rows_go_by_clusters(own + turns, plain + turns, width);
    own
}

/// The line that holds a row of the viewport is one of the transcript in view, or one
/// of the turns below it.
proof fn lemma_a_row_is_held_in_view(
    own: Seq<LineView>,
    turns: Seq<LineView>,
    width: int,
    offset: int,
    viewport_h: int,
    row: int,
)
    requires
        rows_of(own + turns, width) <= usize::MAX,
        0 <= offset <= row < rows_of(own + turns, width),
        row < offset + viewport_h <= usize::MAX,
    ensures
        ({
            let (start, end, _) = window_of(row_map(own, width), offset, viewport_h);
            match content_at(row_map(own + turns, width), row) {
                Some((line, _)) => start <= line < end || own.len() <= line,
                None => false,
            }
        }),
{
    lemma_rows_are_additive(own, turns, width);
    lemma_row_map(own, width);
    lemma_row_map(turns, width);
    lemma_row_map(own + turns, width);
    lemma_content_rows_are_exact(row_map(own + turns, width), row);
    if row < rows_of(own, width) {
        lemma_row_falls_into_the_first(own, turns, width, row);
        lemma_window_covers_the_viewport(row_map(own, width), offset, viewport_h, row);
    } else {
        lemma_row_falls_into_the_second(own, turns, width, row);
        lemma_upto(row_map(turns, width), row - rows_of(own, width));
    }
}

/// The transcript with its lines in view marked, and turns below it, show by their
/// joint window what they show with every line marked.
proof fn lemma_a_joint_view_shows_its_marks(
    transcript: Transcript,
    own: Seq<LineView>,
    turns: Seq<LineView>,
    width: int,
    offset: int,
    viewport_h: int,
    row: int,
)
    requires
        own.len() == transcript.lines@.len(),
        ({
            let (start, end, _) = window_of(row_map(own, width), offset, viewport_h);
            forall|i: int| start <= i < end ==> #[trigger] own[i] == transcript.marked(i)
        }),
        turns_take_rows(turns, width),
        rows_of(own + turns, width) <= usize::MAX,
        0 <= offset <= row < rows_of(own + turns, width),
        row < offset + viewport_h <= usize::MAX,
    ensures
        ({
            let (lines, residual) = joint_window(own, turns, width, offset, viewport_h);
            shows_by(
                row_map(own + turns, width),
                transcript.shown() + turns,
                row,
                lines,
                row - offset + residual,
                width,
            )
        }),
{
    lemma_a_joint_window_paints_both(own, turns, width, offset, viewport_h, row);
    lemma_a_row_is_held_in_view(own, turns, width, offset, viewport_h, row);
}

/// A pane that is drawn by its window shows its content: at every row of the
/// viewport, the lines it is drawn of hold the line that the whole content holds
/// at that row, at the same row of the line, whether the row falls into the
/// transcript or into the turns of a pending reply. The rows are those that the
/// transcript was measured to at the pane's width, before anything was marked.
#[verifier::spinoff_prover]
#[verifier::rlimit(40)]
pub proof fn lemma_a_pane_paints_its_content(
    app: App,
    transcript: Transcript,
    tail: Seq<LineView>,
    inner: Rect,
    offset: int,
    row: int,
)
    requires
        app.draft is None,
        transcript.valid(),
        transcript.row_prefix@ == row_map(line_views(transcript.lines@), inner.width as int),
        ({
            let (start, end, _) = window_of(
                transcript.row_prefix@,
                offset,
                inner.height as int,
            );
            transcript.marks_keep_clusters(start, end)
        }),
        shown_tail(app, tail) is Some ==> turns_take_rows(tail, inner.width as int),
        ({
            let rows = rows_of(measured_content(app, transcript, tail), inner.width as int);
            &&& rows <= usize::MAX
            &&& 0 <= offset <= row < rows
            &&& row < offset + inner.height <= usize::MAX
        }),
    ensures
        ({
            let (lines, residual) = pane_window(app, transcript, tail, inner, offset);
            shows_by(
                row_map(measured_content(app, transcript, tail), inner.width as int),
                whole_content(app, transcript, tail),
                row,
                lines,
                row - offset + residual,
                inner.width as int,
            )
        }),
{
    let width = inner.width as int;
    let viewport_h = inner.height as int;
    let plain = line_views(transcript.lines@);
    let (start, end, skipped) = window_of(row_map(plain, width), offset, viewport_h);
    assert(0 <= start <= end <= plain.len()) by {
        lemma_row_map(plain, width);
        lemma_window_is_in_range(row_map(plain, width), offset, viewport_h);
    }
    match shown_tail(app, tail) {
        Some(turns) => {
            let own = lemma_marks_in_view_keep_the_rows(transcript, turns, start, end, width);
            assert(pane_window(app, transcript, tail, inner, offset) == joint_window(
                own,
                turns,
                width,
                offset,
                viewport_h,
            )) by {
                lemma_row_map(own, width);
            }
            lemma_a_joint_view_shows_its_marks(
                transcript,
                own,
                turns,
                width,
                offset,
                viewport_h,
                row,
            );
        },
        None => {
            let own = lemma_marks_in_view_keep_the_rows(transcript, seq![], start, end, width);
            lemma_a_window_paints_what_the_whole_paints(own, width, offset, viewport_h, row);
            assert(start <= line_holding(row_map(own, width), row) < end) by {
                lemma_row_map(own, width);
                lemma_window_covers_the_viewport(row_map(own, width), offset, viewport_h, row);
            }
        },
    }
}

/// A pane that is browsed shows one wrapped paragraph of the whole transcript: with
/// no draft, reply, banner or jump, it stands at its offset held to the content,
/// keeps its hold on the last row as it was, and shows at every row of the viewport
/// what the whole transcript shows there, marks and all.
pub proof fn lemma_a_browsed_pane_shows_the_whole_transcript(
    app: App,
    area: Rect,
    transcript: Transcript,
    tail: Seq<LineView>,
    row: int,
)
    requires
        app.draft is None,
        app.compose is None,
        pending_reply(app) is None,
        banner_line(app) is None,
        !app.preview_match_jump,
        transcript.valid(),
        transcript.lines@.len() > 0,
        transcript.row_prefix@ == row_map(
            line_views(transcript.lines@),
            inner_of(area).width as int,
        ),
        drawn_as_measured(app, area, transcript, tail),
        rows_of(line_views(transcript.lines@), inner_of(area).width as int) <= usize::MAX,
    ensures
        ({
            let inner = inner_of(area);
            let rows = rows_of(line_views(transcript.lines@), inner.width as int) as int;
            let offset = clamped_offset(
                app.preview_follow_bottom,
                app.preview_scroll as int,
                rows,
                inner.height as int,
            );
            let after = after_preview(app, area, transcript, tail);
            let (lines, residual) = pane_window(app, transcript, tail, inner, offset);
            &&& after == (App {
                preview_scroll: offset as u32,
                preview_viewport_h: inner.height,
                ..app
            })
            &&& preview_draws(app, area, transcript, tail).contains(
                DrawView::Text(text_view(lines, residual, inner)),
            )
            &&& offset <= row < offset + inner.height && row < rows ==> shows_by(
                transcript.row_prefix@,
                transcript.shown(),
                row,
                lines,
                row - offset + residual,
                inner.width as int,
            )
        }),
{
    let inner = inner_of(area);
    assert(pane_split(app, area).1 == inner);
    lemma_row_map(line_views(transcript.lines@), inner.width as int);
    let rows = rows_of(line_views(transcript.lines@), inner.width as int) as int;
    let offset = pane_offset(app, transcript, tail, inner);
    let draws = preview_draws(app, area, transcript, tail);
    let (lines, residual) = pane_window(app, transcript, tail, inner, offset);
    assert(draws[1] == DrawView::Text(text_view(lines, residual, inner)));
    if offset <= row < offset + inner.height && row < rows {
        lemma_a_pane_paints_its_content(app, transcript, tail, inner, offset, row);
    }
}

/// A click finds the line that is painted under it: on a pane scrolled to
/// `offset`, a cell of the pane over a row of the transcript leads to the line
/// that the pane shows at that cell's row, marked as it is there.
pub proof fn lemma_a_click_finds_the_line_under_it(
    app: App,
    transcript: Transcript,
    tail: Seq<LineView>,
    inner: Rect,
    offset: int,
    col: int,
    row: int,
)
    requires
        app.draft is None,
        transcript.valid(),
        transcript.row_prefix@ == row_map(line_views(transcript.lines@), inner.width as int),
        ({
            let (start, end, _) = window_of(
                transcript.row_prefix@,
                offset,
                inner.height as int,
            );
            transcript.marks_keep_clusters(start, end)
        }),
        shown_tail(app, tail) is Some ==> turns_take_rows(tail, inner.width as int),
        rows_of(measured_content(app, transcript, tail), inner.width as int) <= usize::MAX,
        0 <= offset,
        offset + inner.height <= usize::MAX,
        inner.holds(col, row),
        offset + (row - inner.y) < transcript.rows(),
    ensures
        ({
            let (lines, residual) = pane_window(app, transcript, tail, inner, offset);
            match (
                cell_target(col, row, inner, offset, transcript.row_prefix@),
                content_at(row_map(lines, inner.width as int), row - inner.y + residual),
            ) {
                (Some((line, _)), Some((at, _))) => transcript.marked(line) == lines[at],
                _ => false,
            }
        }),
{
    let width = inner.width as int;
    let plain = line_views(transcript.lines@);
    let seen = offset + (row - inner.y);
    lemma_row_map(plain, width);
    lemma_content_rows_are_exact(row_map(plain, width), seen);
    match shown_tail(app, tail) {
        Some(turns) => {
            lemma_rows_are_additive(plain, turns, width);
            lemma_row_map(plain + turns, width);
            lemma_row_falls_into_the_first(plain, turns, width, seen);
        },
        None => {},
    }
    lemma_a_pane_paints_its_content(app, transcript, tail, inner, offset, seen);
}

/// A banner reads as the selected session's agent does, exactly where one was reported,
/// no reply is on its way there, and no session is being drafted.
pub proof fn lemma_a_banner_reads_as_the_agent(app: App, id: String)
    requires
        app.selected == Some(id),
    ensures
        banner_line(app) is Some <==> app.draft is None && app.reply_to(id@) is None && app.agent(
            id@,
        ) is Some,
        banner_line(app) matches Some(line) ==> line_text(line.spans) == app.agent(
            id@,
        ).unwrap()@.line(),
{
    let none: Seq<SpanView> = seq![];
    if let Some(line) = banner_line(app) {
        lemma_a_line_reads_its_spans(none, line.spans[0]);
        assert(line.spans =~= seq![line.spans[0]]);
    }
}

/// Nothing selected has no banner and no pending reply.
pub proof fn lemma_nothing_selected_shows_nothing(app: App, area: Rect)
    requires
        app.selected is None,
    ensures
        banner_line(app) is None,
        pending_reply(app) is None,
        pane_split(app, area).0.height == 0,
{
}

/// A reply is echoed, word for word, until its session has more turns than when it was
/// sent; what stands for the answer stays below it all the while, and turns with the
/// tick.
pub proof fn lemma_a_reply_is_echoed_until_it_lands(
    app: App,
    id: String,
    sending: Sending,
    tick: u64,
)
    requires
        app.selected == Some(id),
        app.sending == Some(sending),
        sending.session_id@ == id@,
    ensures
        ({
            let later = (App { tick, ..app });
            let reply = pending_reply(app);
            let other = pending_reply(later);
            &&& reply is Some && other is Some
            &&& app.session(id@) is None ==> reply.unwrap().echo == Some(sending.message@)
            &&& app.session(id@) matches Some(session) ==> reply.unwrap().echo == (if
                session.msg_count <= sending.baseline_msg_count {
                Some(sending.message@)
            } else {
                None
            })
            &&& reply.unwrap().echo == other.unwrap().echo
            &&& reply.unwrap().label.drop_first() == " "@ + REPLY_COOKING_LABEL@
            &&& reply.unwrap().label == other.unwrap().label <==> (app.tick - tick) % 10 == 0
        }),
{
    let later = App { tick, ..app };
    assert(later.session(id@) == app.session(id@));
    lemma_the_spinner_turns_with_the_tick(app.tick, tick);
    lemma_the_spinner_turns_with_the_tick(tick, app.tick);
    let a = pending_reply(app).unwrap().label;
    let b = pending_reply(later).unwrap().label;
    let rest = " "@ + REPLY_COOKING_LABEL@;
    assert(a =~= spinner_at(app.tick) + rest);
    assert(b =~= spinner_at(tick) + rest);
    assert(a.drop_first() =~= rest);
    assert(a.take(1) =~= spinner_at(app.tick));
    assert(b.take(1) =~= spinner_at(tick));
}

/// A pane is as high as what it shows: a reply's turns come on top of the transcript's
/// rows, a card stands in their place, and neither leaves a row out.
pub proof fn lemma_a_pane_is_as_high_as_its_content(
    app: App,
    transcript: Transcript,
    tail: Seq<LineView>,
    width: int,
)
    requires
        transcript.rows() + rows_of(tail, width) <= usize::MAX,
    ensures
        app.draft is None && pending_reply(app) is None ==> content_height(
            app,
            transcript,
            tail,
            width,
        ) == transcript.rows(),
        app.draft is None && pending_reply(app) is Some ==> content_height(
            app,
            transcript,
            tail,
            width,
        ) == transcript.rows() + rows_of(tail, width),
        app.draft matches Some(draft) ==> content_height(app, transcript, tail, width) == least(
            rows_of(card_lines(draft, app.launch_dir@, app.tick), width) as int,
            usize::MAX as int,
        ),
{
}

/// Drawing a pane touches nothing but the pane, and the pane keeps the height of the
/// transcript's area. A card keeps the transcript's place, and a pane lets go of its
/// last row only for a jump.
pub proof fn lemma_a_frame_touches_the_pane_alone(
    app: App,
    area: Rect,
    transcript: Transcript,
    tail: Seq<LineView>,
)
    ensures
        ({
            let after = after_preview(app, area, transcript, tail);
            let back = (App {
                preview_match_jump: app.preview_match_jump,
                preview_viewport_h: app.preview_viewport_h,
                preview_scroll: app.preview_scroll,
                preview_follow_bottom: app.preview_follow_bottom,
                ..after
            });
            &&& back == app
            &&& after.preview_viewport_h == pane_split(app, area).1.height
            &&& app.draft is Some ==> after.preview_scroll == app.preview_scroll
            &&& after.preview_follow_bottom ==> app.preview_follow_bottom
            &&& (app.preview_follow_bottom && !app.preview_match_jump)
                ==> after.preview_follow_bottom
        }),
{
}

/// The scrollbar stands beside the transcript's rows, has a position for every offset
/// of the pane, and points up exactly at the first row and down exactly at the last. Its
/// thumb runs between the two arrows.
pub proof fn lemma_a_bar_points_at_the_edges(
    area: Rect,
    inner: Rect,
    content_h: int,
    offset: int,
)
    requires
        inner.height < content_h < usize::MAX,
        content_h - inner.height <= u32::MAX,
        0 <= offset <= content_h - inner.height,
    ensures
        ({
            let bar = bar_view(area, inner, content_h, offset);
            &&& bar.begin == "↑"@ <==> offset == 0
            &&& bar.end == "↓"@ <==> offset + inner.height == content_h
            &&& bar.begin.len() == 1 && bar.end.len() == 1
            &&& bar.content_length == content_h - inner.height + 1
            &&& bar.position < bar.content_length
            &&& bar.position == 0 <==> offset == 0
            &&& bar.position == bar.content_length - 1 <==> offset + inner.height == content_h
            &&& bar.position == thumb_position(
                offset,
                content_h - inner.height,
                content_h - inner.height + 1,
                content_h,
                if inner.height >= 2 {
                    inner.height - 2
                } else {
                    0
                },
            )
            &&& bar.viewport == inner.height
            &&& bar.area.y == inner.y && bar.area.height == inner.height
            &&& bar.area.x == area.x && bar.area.width == area.width
        }),
{
    reveal_strlit("↑");
    reveal_strlit("↓");
    reveal_strlit(" ");
    assert("↑"@[0] != " "@[0] && "↓"@[0] != " "@[0]);
    lemma_the_thumb_reaches_both_ends(
        offset,
        content_h - inner.height,
        content_h - inner.height + 1,
        content_h,
        floored_difference(inner.height as int, 2),
    );
}

/// A pane is drawn in its parts: the border around it, the banner in the banner's row,
/// the lines in the transcript's area, wrapped, a scrollbar exactly where they overflow
/// it, and the box of the open draft last, exactly where it is docked.
pub proof fn lemma_a_pane_is_drawn_in_its_parts(
    app: App,
    area: Rect,
    transcript: Transcript,
    tail: Seq<LineView>,
)
    requires
        !pane_empty(app, transcript, area),
    ensures
        ({
            let draws = preview_draws(app, area, transcript, tail);
            let (banner_area, inner, compose_area) = pane_split(app, area);
            let content_h = content_height(app, transcript, tail, inner.width as int);
            let at: int = if banner_line(app) is Some {
                2
            } else {
                1
            };
            let below: int = if content_h > inner.height {
                at + 2
            } else {
                at + 1
            };
            &&& draws[0] == DrawView::Border(area, titled(" preview "@))
            &&& banner_line(app) matches Some(line) ==> draws[1] == DrawView::Text(
                plain_paragraph(seq![line], banner_area),
            )
            &&& draws[at] matches DrawView::Text(text) && text.area == inner && text.wrap
            &&& content_h > inner.height ==> draws[at + 1] is Scroll
            &&& docks(app, area) ==> draws.skip(below) == zone_draws(app, compose_area)
            &&& !docks(app, area) ==> draws.len() == below
        }),
{
    let draws = preview_draws(app, area, transcript, tail);
    let (banner_area, inner, compose_area) = pane_split(app, area);
    let content_h = content_height(app, transcript, tail, inner.width as int);
    let at: int = if banner_line(app) is Some {
        2
    } else {
        1
    };
    let below: int = if content_h > inner.height {
        at + 2
    } else {
        at + 1
    };
    if docks(app, area) {
        assert(draws.skip(below) =~= zone_draws(app, compose_area));
    }
}

/// What is asked on top of the board changes no pane.
pub proof fn lemma_what_is_asked_changes_no_pane(
    app: App,
    other: App,
    area: Rect,
    transcript: Transcript,
    tail: Seq<LineView>,
)
    requires
        other == (App {
            modal: other.modal,
            pending_stop: other.pending_stop,
            pending_interrupt: other.pending_interrupt,
            ..app
        }),
    ensures
        preview_draws(other, area, transcript, tail) == preview_draws(app, area, transcript, tail),
        after_preview(other, area, transcript, tail) == (App {
            modal: other.modal,
            pending_stop: other.pending_stop,
            pending_interrupt: other.pending_interrupt,
            ..after_preview(app, area, transcript, tail)
        }),
{
    assert(pending_reply(other) == pending_reply(app));
    assert(banner_line(other) == banner_line(app));
    assert(pane_split(other, area) == pane_split(app, area));
    let (banner_area, inner, compose_area) = pane_split(app, area);
    let offset = pane_offset(app, transcript, tail, inner);
    assert(pane_offset(other, transcript, tail, inner) == offset);
    assert(pane_window(other, transcript, tail, inner, offset) == pane_window(
        app,
        transcript,
        tail,
        inner,
        offset,
    ));
    assert(zone_draws(other, compose_area) == zone_draws(app, compose_area));
}

/// A line is marked by its own matches, and by no other line's: one that has none is
/// shown as it is, whatever was matched elsewhere.
pub proof fn lemma_a_line_is_marked_by_its_own_matches(
    transcript: Transcript,
    matches: HashMap<usize, HashSet<usize>>,
    i: int,
    from: int,
    to: int,
)
    requires
        0 <= from <= i < to <= transcript.lines@.len(),
        transcript.lines@.len() <= usize::MAX,
        transcript.matches == Some(matches),
    ensures
        transcript.marked_lines(from, to).len() == to - from,
        ({
            let line = transcript.lines@[i]@;
            let shown = transcript.marked_lines(from, to)[i - from];
            &&& !matches@.contains_key(i as usize) ==> shown == line
            &&& matches@.contains_key(i as usize) ==> {
                &&& shown.spans == marked_spans(
                    line.spans,
                    matches@[i as usize]@,
                    Modifier::reversed(),
                )
                &&& shown.style == line.style && shown.alignment == line.alignment
            }
        }),
{
}

/// Without matches every line is shown as it is.
pub proof fn lemma_without_matches_nothing_is_marked(transcript: Transcript)
    requires
        transcript.matches is None,
    ensures
        transcript.shown() == line_views(transcript.lines@),
{
    assert(transcript.shown() =~= line_views(transcript.lines@));
}

/// A pane says that nothing is selected exactly where there is nothing to show: one
/// line of a transcript, a banner, a pending reply, a card or a docked box is enough to
/// have it drawn in its parts. A pane without anything starts over.
pub proof fn lemma_an_empty_pane_says_so(
    app: App,
    area: Rect,
    transcript: Transcript,
    tail: Seq<LineView>,
)
    ensures
        ({
            let draws = preview_draws(app, area, transcript, tail);
            let nothing = transcript.lines@.len() == 0 && banner_line(app) is None
                && pending_reply(app) is None && app.draft is None && !docks(app, area);
            &&& draws[0] is Border <==> !nothing
            &&& nothing ==> {
                &&& draws.len() == 1
                &&& draws[0] is Text && draws[0]->Text_0.area == area
                &&& line_text(draws[0]->Text_0.lines[0].spans) == "No session selected."@
            }
            &&& nothing ==> after_preview(app, area, transcript, tail).preview_scroll == 0
            &&& docks(app, area) <==> app.compose is Some && area.height >= 14
        }),
{
    let none: Seq<SpanView> = seq![];
    lemma_a_line_reads_its_spans(none, raw_span("No session selected."@));
}

/// A pending jump leads somewhere exactly where a match was found on a line that the
/// transcript has, or at its end, and no card stands in its place; and then to a third
/// of the viewport above that line, or to the first row where there are fewer above.
pub proof fn lemma_a_jump_leads_to_its_match(
    app: App,
    transcript: Transcript,
    line: usize,
    viewport_h: int,
)
    requires
        transcript.valid(),
        transcript.match_target == Some(line),
        0 <= viewport_h <= u16::MAX,
    ensures
        ({
            let jump = pane_jump(app, transcript, viewport_h);
            let above = transcript.row_prefix@[line as int] as int;
            &&& jump is Some <==> app.preview_match_jump && app.draft is None && line
                <= transcript.lines@.len()
            &&& (jump is Some && above <= u32::MAX) ==> above - jump.unwrap() == least(
                above,
                viewport_h / 3,
            )
        }),
{
}

} // verus!
