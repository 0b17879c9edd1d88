//! Drafts: the box that a draft is written in, and the card of a session that
//! does not exist yet.

use vstd::prelude::*;
use crate::agents::optional_text;
use crate::app::{App, ComposeState, ComposeTarget, NewSessionDraft};
use crate::chrome::BG_DRAFT_HINT;
use crate::draw::{draw_views, Draw, DrawView, Frame, FrameView};
use crate::geometry::{
    frame_inner, framed, greatest, least, on_grid, Rect, COMPOSE_MAX_TEXT_ROWS,
    COMPOSE_MAX_ZONE_HEIGHT, COMPOSE_MIN_TEXT_ROWS,
};
use crate::labels::{lemma_the_spinner_turns, spinner_frame, spinner_text, SPINNER_FRAMES};
use crate::paths::{lossy, lossy_text, reads_as_spelled};
use crate::style::{
    lemma_a_line_reads_its_spans, line_text, line_views, plain_line, raw_span, span_views,
    styled_span, Color, Line, LineView, Modifier, Span, SpanView, Style,
};
use crate::text::{
    concat, concat3, is_white, lemma_trimming_is_exact, lemma_trimming_the_start_is_exact,
    trim_end, trim_start, trimmed,
};

verus! {

broadcast use {
    crate::draw::lemma_draw_views_push,
    crate::style::lemma_line_views_push,
    crate::style::lemma_span_views_push,
};

/// The rows of text that the open draft's box shows: those of the draft, held
/// between one and the most that the box grows to.
pub open spec fn text_rows(app: App) -> int {
    let rows = match app.compose {
        Some(compose) => compose.screen_rows as int,
        None => 0,
    };
    least(greatest(rows, COMPOSE_MIN_TEXT_ROWS as int), COMPOSE_MAX_TEXT_ROWS as int)
}

/// The rows of text that the open draft's box shows.
pub fn compose_text_rows(app: &App) -> (rows: u16)
    ensures
        rows == text_rows(*app),
{
    let rows: usize = match &app.compose {
        Some(compose) => compose.screen_rows,
        None => 0,
    };
    if rows < COMPOSE_MIN_TEXT_ROWS as usize {
        COMPOSE_MIN_TEXT_ROWS
    } else if rows > COMPOSE_MAX_TEXT_ROWS as usize {
        COMPOSE_MAX_TEXT_ROWS
    } else {
        rows as u16
    }
}

/// The rows of the open draft's box, its border counted.
pub fn compose_zone_height(app: &App) -> (rows: u16)
    ensures
        rows == text_rows(*app) + 2,
        rows <= COMPOSE_MAX_ZONE_HEIGHT,
{
    compose_text_rows(app) + 2
}

/// What the card calls an agent that was not picked.
pub const BG_DRAFT_DEFAULT_AGENT: &'static str = "default agent";

/// A picked agent's name without the whitespace around it, where something is
/// left.
pub open spec fn picked(agent: Option<Seq<char>>) -> Option<Seq<char>> {
    match agent {
        Some(name) => {
            let trimmed = trim_end(trim_start(name));
            if trimmed.len() > 0 {
                Some(trimmed)
            } else {
                None
            }
        },
        None => None,
    }
}

/// A picked agent's name without the whitespace around it, where something is
/// left.
fn picked_name(agent: Option<&str>) -> (name: Option<String>)
    ensures
        optional_text(name) == picked(
            match agent {
                Some(text) => Some(text@),
                None => None,
            },
        ),
{
    match agent {
        Some(text) => {
            let name = trimmed(text);
            if name.as_str().unicode_len() > 0 {
                Some(name)
            } else {
                None
            }
        },
        None => None,
    }
}

/// How the card names the agent.
pub open spec fn agent_text(agent: Option<Seq<char>>) -> Seq<char> {
    match picked(agent) {
        Some(name) => "@"@ + name,
        None => BG_DRAFT_DEFAULT_AGENT@,
    }
}

/// How the card names the agent.
pub fn draft_agent_label(agent: Option<&str>) -> (label: String)
    ensures
        label@ == agent_text(
            match agent {
                Some(text) => Some(text@),
                None => None,
            },
        ),
{
    match picked_name(agent) {
        Some(name) => concat("@", name.as_str()),
        None => BG_DRAFT_DEFAULT_AGENT.to_owned(),
    }
}

/// What the card is headed by.
pub const DRAFT_CARD_HEADLINE: &'static str = "new session";

/// What stands between the headline and the agent.
pub const DRAFT_CARD_SEPARATOR: &'static str = " \u{b7} ";

/// What the card says once the session is being started.
pub const DRAFT_CARD_LAUNCHING: &'static str = "starting in the background\u{2026}";

impl NewSessionDraft {
    /// Whether the session is being started.
    pub open spec fn launching(self) -> bool {
        self.launch_id is Some
    }

    /// Whether the session is being started.
    pub fn is_launching(&self) -> (launching: bool)
        ensures
            launching == self.launching(),
    {
        self.launch_id.is_some()
    }
}

/// The spinner at `tick`.
pub open spec fn spinner_at(tick: u64) -> Seq<char> {
    spinner_text(tick as int % SPINNER_FRAMES as int)
}

/// The card of a session that does not exist yet: what is started, where, and the
/// keys, or that it is under way.
pub open spec fn card_lines(draft: NewSessionDraft, launch_dir: Seq<u8>, tick: u64) -> Seq<
    LineView,
> {
    let tail = if draft.launching() {
        styled_span(
            spinner_at(tick) + " "@ + DRAFT_CARD_LAUNCHING@,
            Style::plain().fg(Color::Yellow),
        )
    } else {
        styled_span(BG_DRAFT_HINT@, Style::plain().add_modifier(Modifier::dim()))
    };
    seq![
        plain_line(
            seq![
                styled_span(
                    DRAFT_CARD_HEADLINE@,
                    Style::plain().fg(Color::Cyan).add_modifier(Modifier::bold()),
                ),
                raw_span(DRAFT_CARD_SEPARATOR@),
                styled_span(
                    agent_text(optional_text(draft.agent)),
                    Style::plain().fg(Color::Green),
                ),
            ],
        ),
        plain_line(
            seq![styled_span(lossy(launch_dir), Style::plain().add_modifier(Modifier::dim()))],
        ),
        plain_line(seq![]),
        plain_line(seq![tail]),
    ]
}

/// The card of a session that does not exist yet.
pub fn draft_card(draft: &NewSessionDraft, launch_dir: &[u8], tick: u64) -> (lines: Vec<Line>)
    ensures
        line_views(lines@) == card_lines(*draft, launch_dir@, tick),
        reads_as_spelled(launch_dir@),
{
    let agent = match &draft.agent {
        Some(name) => Some(name.as_str()),
        None => None,
    };
    let mut headline: Vec<Span> = Vec::new();
    headline.push(
        Span::styled(
            DRAFT_CARD_HEADLINE.to_owned(),
            Style::plain().fg(Color::Cyan).add_modifier(Modifier::bold()),
        ),
    );
    headline.push(Span::raw(DRAFT_CARD_SEPARATOR));
    headline.push(Span::styled(draft_agent_label(agent), Style::plain().fg(Color::Green)));
    assert(span_views(headline@) =~= seq![
        styled_span(
            DRAFT_CARD_HEADLINE@,
            Style::plain().fg(Color::Cyan).add_modifier(Modifier::bold()),
        ),
        raw_span(DRAFT_CARD_SEPARATOR@),
        styled_span(agent_text(optional_text(draft.agent)), Style::plain().fg(Color::Green)),
    ]);
    let dir = Span::styled(
        lossy_text(launch_dir),
        Style::plain().add_modifier(Modifier::dim()),
    );
    let tail = if draft.is_launching() {
        Span::styled(
            concat3(spinner_frame(tick), " ", DRAFT_CARD_LAUNCHING),
            Style::plain().fg(Color::Yellow),
        )
    } else {
        Span::styled(BG_DRAFT_HINT.to_owned(), Style::plain().add_modifier(Modifier::dim()))
    };
    let mut lines: Vec<Line> = Vec::new();
    lines.push(Line::from_spans(headline));
    lines.push(Line::from_span(dir));
    lines.push(Line::blank());
    lines.push(Line::from_span(tail));
    assert(line_views(lines@) =~= card_lines(*draft, launch_dir@, tick));
    lines
}

/// What the box of a draft is titled: whom the reply goes to, and whether their
/// agent is stopped first; or which agent is started.
pub open spec fn title_text(app: App, target: ComposeTarget) -> Seq<char> {
    match target {
        ComposeTarget::Reply { session_id, stop_job } => if stop_job is Some {
            " stop & reply to "@ + app.name_of(session_id@) + " "@
        } else {
            " reply to "@ + app.name_of(session_id@) + " "@
        },
        ComposeTarget::NewBackgroundAgent { agent } => {
            let name = match picked(optional_text(agent)) {
                Some(name) => name,
                None => BG_DRAFT_DEFAULT_AGENT@,
            };
            " new background agent: "@ + name + " "@
        },
    }
}

/// What the box of a draft is titled.
pub fn compose_title(app: &App, compose: &ComposeState) -> (title: String)
    ensures
        title@ == title_text(*app, compose.target),
{
    match &compose.target {
        ComposeTarget::Reply { session_id, stop_job } => {
            let label = app.session_name(session_id.as_str());
            if stop_job.is_some() {
                concat3(" stop & reply to ", label, " ")
            } else {
                concat3(" reply to ", label, " ")
            }
        },
        ComposeTarget::NewBackgroundAgent { agent } => {
            let picked = match agent {
                Some(name) => picked_name(Some(name.as_str())),
                None => None,
            };
            let name = match picked {
                Some(name) => name,
                None => BG_DRAFT_DEFAULT_AGENT.to_owned(),
            };
            concat3(" new background agent: ", name.as_str(), " ")
        },
    }
}

/// The box of the open draft, where one is open: its border, and the editor
/// inside it.
pub open spec fn zone_draws(app: App, area: Rect) -> Seq<DrawView> {
    match app.compose {
        Some(compose) => seq![
            DrawView::Border(
                area,
                FrameView {
                    title: title_text(app, compose.target),
                    border: Style::plain().fg(Color::Cyan),
                },
            ),
            DrawView::Editor(framed(area)),
        ],
        None => seq![],
    }
}

/// Draw the box of the open draft.
pub fn render_compose_zone(app: &App, area: Rect) -> (draws: Vec<Draw>)
    ensures
        draw_views(draws@) == zone_draws(*app, area),
{
    let mut draws: Vec<Draw> = Vec::new();
    if let Some(compose) = &app.compose {
        let frame = Frame {
            title: compose_title(app, compose),
            border: Style::plain().fg(Color::Cyan),
        };
        draws.push(Draw::Border(area, frame));
        draws.push(Draw::Editor(frame_inner(area)));
    }
    assert(draw_views(draws@) =~= zone_draws(*app, area));
    draws
}

/// The name of a picked agent never reads as an empty one: a card never shows a
/// bare `@`, and an agent of whitespace alone is no agent.
pub proof fn lemma_a_blank_agent_is_none(agent: Option<Seq<char>>)
    ensures
        picked(agent) matches Some(name) ==> name.len() > 0,
        picked(agent) is None ==> agent_text(agent) == BG_DRAFT_DEFAULT_AGENT@,
{
}

/// A picked agent's name is what stands between the whitespace around it, whole; and
/// whitespace alone picks none.
pub proof fn lemma_a_picked_name_is_read_whole(
    before: Seq<char>,
    name: Seq<char>,
    after: Seq<char>,
)
    requires
        forall|i: int| 0 <= i < before.len() ==> is_white(#[trigger] before[i]),
        forall|i: int| 0 <= i < after.len() ==> is_white(#[trigger] after[i]),
        name.len() > 0 ==> !is_white(name[0]) && !is_white(name.last()),
    ensures
        name.len() > 0 ==> picked(Some(before + name + after)) == Some(name),
        name.len() > 0 ==> agent_text(Some(before + name + after)) == "@"@ + name,
        picked(Some(before)) is None,
        picked(None) is None,
{
    let none: Seq<char> = seq![];
    let all = before + name + after;
    assert(before + none =~= before);
    lemma_trimming_the_start_is_exact(before, none);
    assert(trim_end(none) == none);
    if name.len() > 0 {
        assert(all =~= before + (name + after));
        assert((name + after)[0] == name[0]);
        lemma_trimming_the_start_is_exact(before, name + after);
        lemma_trimming_is_exact(name, after);
    }
}

/// The box of a draft shows the draft's rows, one at least and six at most.
pub proof fn lemma_a_box_grows_with_its_draft(app: App)
    ensures
        1 <= text_rows(app) <= 6,
        app.compose is None ==> text_rows(app) == 1,
        app.compose matches Some(compose) ==> (1 <= compose.screen_rows <= 6 ==> text_rows(app)
            == compose.screen_rows) && (compose.screen_rows > 6 ==> text_rows(app) == 6),
{
}

/// A turn of the spinner later the same glyph returns, and within a turn no other tick
/// has it.
pub proof fn lemma_the_spinner_turns_with_the_tick(a: u64, b: u64)
    ensures
        spinner_at(a) == spinner_at(b) <==> (a - b) % 10 == 0,
        spinner_at(a).len() == 1,
{
    lemma_the_spinner_turns(a as int % 10, b as int % 10);
}

/// A box is titled by whom it is for: the title of a reply ends with what its session
/// is called, that of a background agent with the agent's name, and a reply that stops
/// an agent says so in front.
pub proof fn lemma_a_box_is_titled_by_whom_it_is_for(
    app: App,
    session_id: String,
    job: String,
    agent: Option<String>,
)
    ensures
        (app.name_of(session_id@) + " "@).is_suffix_of(
            title_text(app, ComposeTarget::Reply { session_id, stop_job: None }),
        ),
        title_text(app, ComposeTarget::Reply { session_id, stop_job: Some(job) }) == " stop &"@
            + title_text(app, ComposeTarget::Reply { session_id, stop_job: None }),
        picked(optional_text(agent)) matches Some(name) ==> (name + " "@).is_suffix_of(
            title_text(app, ComposeTarget::NewBackgroundAgent { agent }),
        ),
{
    let plain = title_text(app, ComposeTarget::Reply { session_id, stop_job: None });
    let name = app.name_of(session_id@) + " "@;
    assert(plain.subrange(plain.len() - name.len(), plain.len() as int) =~= name);
    reveal_strlit(" stop & reply to ");
    reveal_strlit(" reply to ");
    reveal_strlit(" stop &");
    assert(" stop & reply to "@ =~= " stop &"@ + " reply to "@);
    assert(title_text(app, ComposeTarget::Reply { session_id, stop_job: Some(job) })
        =~= " stop &"@ + plain);
    if let Some(name) = picked(optional_text(agent)) {
        let title = title_text(app, ComposeTarget::NewBackgroundAgent { agent });
        let end = name + " "@;
        assert(title.subrange(title.len() - end.len(), title.len() as int) =~= end);
    }
}

/// A card says what is started and where, and whether it is under way: its first line
/// names the agent, its second the directory, and only its last one changes once the
/// session is being started, and then with the tick alone.
pub proof fn lemma_a_card_says_what_is_started(
    draft: NewSessionDraft,
    launch_id: Option<u64>,
    launch_dir: Seq<u8>,
    tick: u64,
    later: u64,
)
    ensures
        ({
            let card = card_lines(draft, launch_dir, tick);
            let turned = (NewSessionDraft { launch_id, ..draft });
            let other = card_lines(turned, launch_dir, later);
            &&& card.len() == 4 && other.len() == 4
            &&& card[0] == other[0] && card[1] == other[1] && card[2] == other[2]
            &&& line_text(card[0].spans) == DRAFT_CARD_HEADLINE@ + DRAFT_CARD_SEPARATOR@
                + agent_text(optional_text(draft.agent))
            &&& line_text(card[1].spans) == lossy(launch_dir)
            &&& line_text(card[2].spans).len() == 0
            &&& draft.launch_id is None ==> line_text(card[3].spans) == BG_DRAFT_HINT@
            &&& draft.launch_id is Some ==> line_text(card[3].spans) == spinner_at(tick) + " "@
                + DRAFT_CARD_LAUNCHING@
        }),
{
    let card = card_lines(draft, launch_dir, tick);
    let none: Seq<SpanView> = seq![];
    let head = card[0].spans;
    reveal_with_fuel(line_text, 4);
    assert(head.drop_last().drop_last() =~= seq![head[0]]);
    assert(head =~= none.push(head[0]).push(head[1]).push(head[2]));
    lemma_a_line_reads_its_spans(none, head[0]);
    lemma_a_line_reads_its_spans(none.push(head[0]), head[1]);
    lemma_a_line_reads_its_spans(none.push(head[0]).push(head[1]), head[2]);
    assert(none.push(head[0]) =~= seq![head[0]]);
    lemma_a_line_reads_its_spans(none, card[1].spans[0]);
    assert(card[1].spans =~= seq![card[1].spans[0]]);
    lemma_a_line_reads_its_spans(none, card[3].spans[0]);
    assert(card[3].spans =~= seq![card[3].spans[0]]);
    assert(card[2].spans =~= none);
}

/// An open draft has a box, with its border on the area's edge and the editor inside
/// it, one cell in on each side; and without one there is none.
pub proof fn lemma_a_box_holds_its_editor(app: App, area: Rect, col: int, row: int)
    requires
        on_grid(area),
    ensures
        zone_draws(app, area).len() == if app.compose is Some {
            2int
        } else {
            0
        },
        app.compose matches Some(compose) ==> {
            &&& zone_draws(app, area)[0] matches DrawView::Border(at, frame) && at == area
                && frame.title == title_text(app, compose.target)
            &&& zone_draws(app, area)[1] matches DrawView::Editor(inside) && (inside.holds(col, row)
                <==> area.holds(col - 1, row - 1) && area.holds(col + 1, row + 1))
        },
{
}

} // verus!
