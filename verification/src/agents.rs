//! Agents that were reported for sessions, and the badges that stand for them.

use vstd::prelude::*;
use crate::labels::blink_visible;
use crate::style::{
    line_text, raw_span, span_texts, span_views, styled_span, Color, Modifier, Span, SpanView, Style,
};
use crate::text::{concat, concat3, same_text};

verus! {

broadcast use crate::style::lemma_span_views_push;

/// Where an agent runs.
#[derive(Debug, Clone, Copy, PartialEq, Eq, Structural)]
pub enum AgentKind {
    /// As a background job.
    Background,
    /// In a terminal of its own.
    Interactive,
}

impl AgentKind {
    /// How the kind reads on a badge.
    #[verifier::allow_in_spec]
    pub fn label(self) -> &'static str
        returns
            (match self {
                AgentKind::Background => "bg",
                AgentKind::Interactive => "live",
            }),
    {
        match self {
            AgentKind::Background => "bg",
            AgentKind::Interactive => "live",
        }
    }
}

/// An agent as it was reported.
#[derive(Debug)]
pub struct ReportedAgent {
    pub kind: AgentKind,
    pub state: Option<String>,
    pub status: Option<String>,
}

/// What is known of an agent.
pub struct AgentView {
    pub kind: AgentKind,
    pub state: Option<Seq<char>>,
    pub status: Option<Seq<char>>,
}

/// The characters of a text, where there is one.
pub open spec fn optional_text(text: Option<String>) -> Option<Seq<char>> {
    match text {
        Some(text) => Some(text@),
        None => None,
    }
}

impl View for ReportedAgent {
    type V = AgentView;

    open spec fn view(&self) -> AgentView {
        AgentView {
            kind: self.kind,
            state: optional_text(self.state),
            status: optional_text(self.status),
        }
    }
}

/// What an agent is doing.
#[derive(Debug, Clone, Copy, PartialEq, Eq, Structural)]
pub enum AgentActivity {
    /// It waits for the user.
    NeedsInput,
    /// It is up and does nothing.
    Idle,
    /// It works.
    Working,
    /// Its state says that it works, its status that it does not.
    WorkingButIdle,
    /// It has finished.
    Done,
    /// It was stopped, or failed.
    Ended,
    /// Something else, or it was not said.
    Other,
}

impl AgentView {
    /// The word that says what the agent is doing: its state, else its status.
    pub open spec fn qualifier(self) -> Option<Seq<char>> {
        match self.state {
            Some(state) => Some(state),
            None => self.status,
        }
    }

    /// What the agent is doing.
    pub open spec fn activity(self) -> AgentActivity {
        if self.state == Some("working"@) && self.status == Some("idle"@) {
            AgentActivity::WorkingButIdle
        } else {
            match self.qualifier() {
                None => AgentActivity::Other,
                Some(word) => activity_of(word),
            }
        }
    }

    /// Whether the agent is at work, as far as anyone can tell.
    pub open spec fn active(self) -> bool {
        self.activity() == AgentActivity::Working || self.activity() == AgentActivity::Other
    }

    /// The phrase that says what the agent is doing.
    pub open spec fn phrase(self) -> Option<Seq<char>> {
        if self.activity() == AgentActivity::NeedsInput {
            Some("needs input"@)
        } else {
            self.qualifier()
        }
    }

    /// How the agent reads in one line.
    pub open spec fn line(self) -> Seq<char> {
        match self.phrase() {
            Some(phrase) => self.kind.label()@ + " "@ + phrase,
            None => self.kind.label()@,
        }
    }
}

/// What a word says of an agent.
pub open spec fn activity_of(word: Seq<char>) -> AgentActivity {
    if word == "blocked"@ || word == "waiting"@ {
        AgentActivity::NeedsInput
    } else if word == "idle"@ {
        AgentActivity::Idle
    } else if word == "working"@ || word == "busy"@ {
        AgentActivity::Working
    } else if word == "done"@ {
        AgentActivity::Done
    } else if word == "stopped"@ || word == "failed"@ {
        AgentActivity::Ended
    } else {
        AgentActivity::Other
    }
}

/// The word that says what the agent is doing.
pub fn qualifier(agent: &ReportedAgent) -> (word: Option<&str>)
    ensures
        match word {
            Some(word) => agent@.qualifier() == Some(word@),
            None => agent@.qualifier() is None,
        },
{
    match &agent.state {
        Some(state) => Some(state.as_str()),
        None => match &agent.status {
            Some(status) => Some(status.as_str()),
            None => None,
        },
    }
}

/// What the agent is doing.
pub fn classify(agent: &ReportedAgent) -> (activity: AgentActivity)
    ensures
        activity == agent@.activity(),
{
    if let (Some(state), Some(status)) = (&agent.state, &agent.status) {
        if same_text(state.as_str(), "working") && same_text(status.as_str(), "idle") {
            return AgentActivity::WorkingButIdle;
        }
    }
    match qualifier(agent) {
        None => AgentActivity::Other,
        Some(word) => {
            if same_text(word, "blocked") || same_text(word, "waiting") {
                AgentActivity::NeedsInput
            } else if same_text(word, "idle") {
                AgentActivity::Idle
            } else if same_text(word, "working") || same_text(word, "busy") {
                AgentActivity::Working
            } else if same_text(word, "done") {
                AgentActivity::Done
            } else if same_text(word, "stopped") || same_text(word, "failed") {
                AgentActivity::Ended
            } else {
                AgentActivity::Other
            }
        },
    }
}

/// Whether the agent is at work, as far as anyone can tell.
pub fn is_active(agent: &ReportedAgent) -> (active: bool)
    ensures
        active == agent@.active(),
{
    let activity = classify(agent);
    activity == AgentActivity::Working || activity == AgentActivity::Other
}

/// The phrase that says what the agent is doing.
pub fn qualifier_copy(agent: &ReportedAgent) -> (phrase: Option<&str>)
    ensures
        match phrase {
            Some(phrase) => agent@.phrase() == Some(phrase@),
            None => agent@.phrase() is None,
        },
{
    if classify(agent) == AgentActivity::NeedsInput {
        Some("needs input")
    } else {
        qualifier(agent)
    }
}

/// How the agent reads in one line.
pub fn friendly_status(agent: &ReportedAgent) -> (line: String)
    ensures
        line@ == agent@.line(),
{
    match qualifier_copy(agent) {
        Some(phrase) => concat3(agent.kind.label(), " ", phrase),
        None => agent.kind.label().to_owned(),
    }
}

/// The glyph of a badge.
pub const BADGE_DOT: &'static str = "\u{25cf}";

/// The glyph of the one badge that wants the user.
pub const BADGE_NEEDS_INPUT: &'static str = "!";

/// The glyph of an agent's badge.
pub open spec fn glyph_of(activity: AgentActivity) -> Seq<char> {
    if activity == AgentActivity::NeedsInput {
        BADGE_NEEDS_INPUT@
    } else {
        BADGE_DOT@
    }
}

/// The glyph of the agent's badge.
pub fn badge_glyph(agent: &ReportedAgent) -> (glyph: &'static str)
    ensures
        glyph@ == glyph_of(agent@.activity()),
{
    if classify(agent) == AgentActivity::NeedsInput {
        BADGE_NEEDS_INPUT
    } else {
        BADGE_DOT
    }
}

/// The color of a badge: yellow wants the user, green is ready, gray is at work,
/// dark gray has ended.
pub open spec fn color_of(activity: AgentActivity) -> Color {
    match activity {
        AgentActivity::NeedsInput => Color::Yellow,
        AgentActivity::Idle => Color::Green,
        AgentActivity::Done => Color::Green,
        AgentActivity::Ended => Color::DarkGray,
        AgentActivity::Working => Color::Gray,
        AgentActivity::WorkingButIdle => Color::Gray,
        AgentActivity::Other => Color::Gray,
    }
}

/// The color of the agent's badge.
pub fn badge_color(agent: &ReportedAgent) -> (color: Color)
    ensures
        color == color_of(agent@.activity()),
{
    match classify(agent) {
        AgentActivity::NeedsInput => Color::Yellow,
        AgentActivity::Idle => Color::Green,
        AgentActivity::Done => Color::Green,
        AgentActivity::Ended => Color::DarkGray,
        AgentActivity::Working => Color::Gray,
        AgentActivity::WorkingButIdle => Color::Gray,
        AgentActivity::Other => Color::Gray,
    }
}

/// The color of a badge's glyph: red where it wants the user, else the badge's.
pub open spec fn glyph_color_of(activity: AgentActivity) -> Color {
    if activity == AgentActivity::NeedsInput {
        Color::Red
    } else {
        color_of(activity)
    }
}

/// The color of the glyph of the agent's badge.
pub fn badge_glyph_color(agent: &ReportedAgent) -> (color: Color)
    ensures
        color == glyph_color_of(agent@.activity()),
{
    if classify(agent) == AgentActivity::NeedsInput {
        Color::Red
    } else {
        badge_color(agent)
    }
}

/// The color that a pulsing glyph takes in its dim phase: dark gray for gray.
/// Any other color has no dim partner and stays.
#[verifier::allow_in_spec]
pub fn pulse_color(base: Color) -> Color
    returns
        (match base {
            Color::Gray => Color::DarkGray,
            other => other,
        }),
{
    match base {
        Color::Gray => Color::DarkGray,
        other => other,
    }
}

/// Every glyph that pulses is seen to: an active agent's glyph has another color
/// in its dim phase, and it is not the glyph that wants the user.
pub proof fn lemma_active_glyphs_can_pulse(agent: AgentView)
    requires
        agent.active(),
    ensures
        pulse_color(glyph_color_of(agent.activity())) != glyph_color_of(agent.activity()),
        glyph_of(agent.activity()) == BADGE_DOT@,
{
}

/// The style of a badge's glyph at `tick`: dimmed in the hidden phase of the
/// pulse, where the agent is active.
pub open spec fn glyph_style(agent: AgentView, tick: u64) -> Style {
    let base = glyph_color_of(agent.activity());
    let steady = Style::plain().fg(base).add_modifier(Modifier::bold());
    if agent.active() && !blink_visible(tick) {
        steady.fg(pulse_color(base))
    } else {
        steady
    }
}

/// The style of the phrase on a badge: as loud as the badge where the agent wants
/// the user, else dim.
pub open spec fn phrase_style(agent: AgentView) -> Style {
    if agent.activity() == AgentActivity::NeedsInput {
        Style::plain().fg(color_of(agent.activity())).add_modifier(Modifier::bold())
    } else {
        Style::plain().add_modifier(Modifier::dim())
    }
}

/// An agent's badge on a row: the glyph, the kind, the phrase where there is one,
/// and a gap.
pub open spec fn badge_spans(agent: AgentView, tick: u64) -> Seq<SpanView> {
    let head = seq![
        styled_span(glyph_of(agent.activity()), glyph_style(agent, tick)),
        styled_span(
            " "@ + agent.kind.label()@,
            Style::plain().fg(color_of(agent.activity())).add_modifier(Modifier::bold()),
        ),
    ];
    let phrase = match agent.phrase() {
        Some(phrase) => seq![raw_span(" "@), styled_span(phrase, phrase_style(agent))],
        None => seq![],
    };
    head + phrase + seq![raw_span("  "@)]
}

/// Append the agent's badge.
pub fn push_badge(spans: &mut Vec<Span>, agent: &ReportedAgent, tick: u64)
    ensures
        span_views(final(spans)@) == span_views(old(spans)@) + badge_spans(agent@, tick),
{
    let base = badge_color(agent);
    let badge = Style::plain().fg(base).add_modifier(Modifier::bold());
    let glyph_base = badge_glyph_color(agent);
    let glyph = Style::plain().fg(glyph_base).add_modifier(Modifier::bold());
    let dot = if is_active(agent) && !blink_visible(tick) {
        glyph.fg(pulse_color(glyph_base))
    } else {
        glyph
    };
    let ghost before = span_views(spans@);
    spans.push(Span::styled(badge_glyph(agent).to_owned(), dot));
    spans.push(Span::styled(concat(" ", agent.kind.label()), badge));
    if let Some(phrase) = qualifier_copy(agent) {
        let style = if classify(agent) == AgentActivity::NeedsInput {
            Style::plain().fg(base).add_modifier(Modifier::bold())
        } else {
            Style::plain().add_modifier(Modifier::dim())
        };
        spans.push(Span::raw(" "));
        spans.push(Span::styled(phrase.to_owned(), style));
    }
    spans.push(Span::raw("  "));
    assert(span_views(spans@) =~= before + badge_spans(agent@, tick));
}

/// Whether the agent's glyph differs between two ticks: it is active, and the ticks
/// fall into different phases of the pulse.
pub open spec fn pulses(agent: AgentView, a: u64, b: u64) -> bool {
    agent.active() && blink_visible(a) != blink_visible(b)
}

/// `span` with the foreground of `other`.
pub open spec fn recolored(span: SpanView, other: SpanView) -> SpanView {
    SpanView { style: Style { fg: other.style.fg, ..span.style }, ..span }
}

/// The pulse changes a color and never a text: between two ticks a badge differs in
/// the foreground of its glyph alone, and that only, and always, where the agent is
/// active and the phases differ.
pub proof fn lemma_the_pulse_never_rewrites_a_badge(agent: AgentView, a: u64, b: u64)
    ensures
        span_texts(badge_spans(agent, a)) == span_texts(badge_spans(agent, b)),
        ({
            let before = badge_spans(agent, a);
            let after = badge_spans(agent, b);
            if pulses(agent, a, b) {
                &&& after == before.update(0, recolored(before[0], after[0]))
                &&& after[0].style.fg != before[0].style.fg
                &&& before[0].text == BADGE_DOT@
            } else {
                after == before
            }
        }),
{
    assert(span_texts(badge_spans(agent, a)) =~= span_texts(badge_spans(agent, b)));
    let before = badge_spans(agent, a);
    let after = badge_spans(agent, b);
    if pulses(agent, a, b) {
        lemma_active_glyphs_can_pulse(agent);
        assert(after =~= before.update(0, recolored(before[0], after[0])));
    }
}

/// A state outranks a status: what an agent is doing goes by its state alone wherever
/// one was reported, but for a state of work beside a status of rest. Without a state,
/// the status says what the state would have said. Where it runs never matters.
pub proof fn lemma_a_state_outranks_a_status(
    agent: AgentView,
    kind: AgentKind,
    status: Option<Seq<char>>,
)
    ensures
        ({
            let moved = (AgentView { kind, ..agent });
            let turned = (AgentView { status, ..agent });
            let told = (AgentView { state: agent.status, status: None, ..agent });
            &&& moved.activity() == agent.activity()
            &&& moved.phrase() == agent.phrase()
            &&& (agent.state is Some && agent.state != Some("working"@)) ==> (turned.activity()
                == agent.activity() && turned.phrase() == agent.phrase())
            &&& agent.state == Some("working"@) ==> (agent.activity()
                == AgentActivity::WorkingButIdle <==> agent.status == Some("idle"@))
            &&& agent.state is None ==> agent.activity() == told.activity()
            &&& (agent.state is None && agent.status is None) ==> agent.activity()
                == AgentActivity::Other
        }),
{
}

/// Only an agent that waits for the user asks for them: its badge alone is yellow, its
/// glyph alone is red and another, and its phrase alone is loud and reads `needs
/// input`; and it never pulses.
pub proof fn lemma_only_a_waiting_agent_asks_for_the_user(agent: AgentView)
    ensures
        color_of(agent.activity()) == Color::Yellow <==> agent.activity()
            == AgentActivity::NeedsInput,
        glyph_color_of(agent.activity()) == Color::Red <==> agent.activity()
            == AgentActivity::NeedsInput,
        glyph_of(agent.activity()) == BADGE_NEEDS_INPUT@ <==> agent.activity()
            == AgentActivity::NeedsInput,
        agent.activity() != AgentActivity::NeedsInput ==> glyph_of(agent.activity()) == BADGE_DOT@
            && glyph_color_of(agent.activity()) == color_of(agent.activity()) && agent.phrase()
            == agent.qualifier(),
        agent.activity() == AgentActivity::NeedsInput ==> !agent.active() && agent.phrase() == Some(
            "needs input"@,
        ),
{
    reveal_strlit("!");
    reveal_strlit("\u{25cf}");
    assert(BADGE_NEEDS_INPUT@[0] != BADGE_DOT@[0]);
}

/// A badge reads as its agent does: the glyph, and behind a space what the agent reads
/// in one line, with a gap behind it.
pub proof fn lemma_a_badge_reads_as_its_agent(agent: AgentView, tick: u64)
    ensures
        line_text(badge_spans(agent, tick)) == glyph_of(agent.activity()) + " "@ + agent.line()
            + "  "@,
{
    let spans = badge_spans(agent, tick);
    let n = spans.len() as int;
    assert(spans.drop_last().len() == n - 1);
    reveal_with_fuel(line_text, 6);
    match agent.phrase() {
        Some(phrase) => {
            assert(spans =~= seq![spans[0], spans[1], spans[2], spans[3], spans[4]]);
            assert(spans.drop_last() =~= seq![spans[0], spans[1], spans[2], spans[3]]);
            assert(spans.drop_last().drop_last() =~= seq![spans[0], spans[1], spans[2]]);
            assert(spans.drop_last().drop_last().drop_last() =~= seq![spans[0], spans[1]]);
            assert(spans.drop_last().drop_last().drop_last().drop_last() =~= seq![spans[0]]);
            assert(seq![spans[0]].drop_last() =~= seq![]);
        },
        None => {
            assert(spans =~= seq![spans[0], spans[1], spans[2]]);
            assert(spans.drop_last() =~= seq![spans[0], spans[1]]);
            assert(spans.drop_last().drop_last() =~= seq![spans[0]]);
            assert(seq![spans[0]].drop_last() =~= seq![]);
        },
    }
    assert(line_text(spans) =~= glyph_of(agent.activity()) + " "@ + agent.line() + "  "@);
}

/// A word means one thing: two of them that the agent waits, two that it works, two
/// that it came to an end, one that it rests and one that it is done; and any other
/// word means none of these.
pub proof fn lemma_a_word_means_one_thing(word: Seq<char>)
    ensures
        activity_of(word) == AgentActivity::NeedsInput <==> word == "blocked"@ || word
            == "waiting"@,
        activity_of(word) == AgentActivity::Working <==> word == "working"@ || word == "busy"@,
        activity_of(word) == AgentActivity::Ended <==> word == "stopped"@ || word == "failed"@,
        activity_of(word) == AgentActivity::Idle <==> word == "idle"@,
        activity_of(word) == AgentActivity::Done <==> word == "done"@,
        activity_of(word) != AgentActivity::WorkingButIdle,
{
    reveal_strlit("blocked");
    reveal_strlit("waiting");
    reveal_strlit("working");
    reveal_strlit("busy");
    reveal_strlit("stopped");
    reveal_strlit("failed");
    reveal_strlit("idle");
    reveal_strlit("done");
    assert("blocked"@[0] == 'b' && "busy"@[0] == 'b' && "blocked"@.len() != "busy"@.len());
    assert("waiting"@[0] == 'w' && "working"@[0] == 'w' && "waiting"@[1] != "working"@[1]);
    assert("stopped"@[0] == 's' && "failed"@[0] == 'f' && "idle"@[0] == 'i' && "done"@[0] == 'd');
}

/// An agent reads as its kind and what it is doing: the kind first, and behind a space
/// the word that was reported of it, or that it needs input. What it was not said of
/// reads as its kind alone.
pub proof fn lemma_an_agent_reads_as_its_kind_and_its_phrase(agent: AgentView, other: AgentKind)
    ensures
        agent.kind.label()@.is_prefix_of(agent.line()),
        agent.phrase() is None ==> agent.line() == agent.kind.label()@,
        agent.phrase() matches Some(phrase) ==> (" "@ + phrase).is_suffix_of(agent.line())
            && agent.line().len() == agent.kind.label()@.len() + 1 + phrase.len(),
        agent.phrase() is None <==> agent.state is None && agent.status is None,
        (AgentView { kind: other, ..agent }).line() == agent.line() <==> other == agent.kind,
        agent.active() ==> agent.phrase() != Some("needs input"@) || agent.qualifier() == Some(
            "needs input"@,
        ),
{
    reveal_strlit("bg");
    reveal_strlit("live");
    reveal_strlit(" ");
    let line = agent.line();
    let label = agent.kind.label()@;
    let turned = AgentView { kind: other, ..agent };
    assert(line.subrange(0, label.len() as int) =~= label);
    assert(turned.line()[0] == other.label()@[0]);
    assert(line[0] == label[0]);
    if let Some(phrase) = agent.phrase() {
        let end = " "@ + phrase;
        assert(line.subrange(line.len() - end.len(), line.len() as int) =~= end);
    }
}

/// The agents whose glyph pulses are those that are at work, and those of which nothing
/// known was said: none that waits, rests, has finished or has ended does.
pub proof fn lemma_only_agents_at_work_pulse(agent: AgentView, word: Seq<char>)
    requires
        agent.qualifier() == Some(word),
    ensures
        word == "blocked"@ || word == "waiting"@ || word == "idle"@ || word == "done"@ || word
            == "stopped"@ || word == "failed"@ ==> !agent.active(),
        agent.state == Some("working"@) ==> (agent.active() <==> agent.status != Some("idle"@)),
        word == "busy"@ ==> agent.active(),
        agent.activity() == AgentActivity::Other ==> agent.active(),
{
    lemma_a_word_means_one_thing(word);
    lemma_a_word_means_one_thing("working"@);
    reveal_strlit("working");
    reveal_strlit("blocked");
    reveal_strlit("waiting");
    reveal_strlit("busy");
    reveal_strlit("stopped");
    reveal_strlit("failed");
    reveal_strlit("idle");
    reveal_strlit("done");
    assert("working"@.len() == 7 && "busy"@.len() == 4);
    assert("blocked"@[0] == 'b' && "waiting"@[1] == 'a' && "working"@[1] == 'o');
    assert("stopped"@[0] == 's' && "failed"@[0] == 'f' && "idle"@[0] == 'i' && "done"@[0] == 'd');
}

/// A badge's color tells what to expect of its agent: green rests or has finished, dark
/// gray has ended, and gray may be at work.
pub proof fn lemma_a_color_tells_what_to_expect(agent: AgentView)
    ensures
        color_of(agent.activity()) == Color::Green <==> agent.activity() == AgentActivity::Idle
            || agent.activity() == AgentActivity::Done,
        color_of(agent.activity()) == Color::DarkGray <==> agent.activity()
            == AgentActivity::Ended,
        color_of(agent.activity()) == Color::Gray <==> agent.active() || agent.activity()
            == AgentActivity::WorkingButIdle,
{
}

} // verus!
