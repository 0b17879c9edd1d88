//! The list of sessions.

use vstd::prelude::*;
use crate::agents::{
    badge_spans, glyph_of, lemma_a_badge_reads_as_its_agent,
    lemma_the_pulse_never_rewrites_a_badge, pulses, push_badge, recolored, BADGE_DOT,
};
use crate::app::{App, Row, Scope, Session};
use crate::clock::{short_time, time_text};
use crate::draw::{
    draw_views, row_views, titled, Draw, DrawView, Frame, ListRow, ListRowView, Paragraph,
    ParagraphView, RowList, RowListView,
};
use crate::geometry::{floored_difference, frame_inner, framed, least, on_grid, Rect};
use crate::highlight::{
    concatenated, graphemes, highlight_label_spans, lemma_line_text_is_additive,
    lemma_run_spans_text, lemma_runs_mark_whole_clusters, run_spans, runs_of,
};
use crate::labels::{
    fit_child_msgs, fit_label, fitted, id_prefix, label_budget, lineage_marker, lineage_text,
    msgs_text, short_id,
};
use crate::style::{
    lemma_a_line_reads_its_spans, line_text, line_views, plain_line, raw_span, span_texts,
    span_views, styled_span, Alignment, Color, Line, LineView, Modifier, Span, SpanView, Style,
};
use crate::text::{concat3, lines, split_lines, texts};

verus! {

broadcast use {
    crate::draw::lemma_draw_views_push,
    crate::draw::lemma_row_views_push,
    crate::style::lemma_line_views_push,
    crate::style::lemma_span_views_push,
};

/// What marks the selected row. Every row is indented by its width.
pub const LIST_HIGHLIGHT_SYMBOL: &'static str = "› ";

/// What a session's row starts with.
pub const ROW_GUTTER: &'static str = "  ";

/// What a row starts with that hangs off the row above.
pub const CHILD_GUTTER: &'static str = "   ↳ ";

/// What a hidden session's row ends with.
pub const HIDDEN_ROW_MARKER: &'static str = "  [hidden]";

/// How wide a scope is.
pub open spec fn rank(scope: Scope) -> int {
    match scope {
        Scope::CurrentFolder => 0,
        Scope::Project => 1,
        Scope::All => 2,
    }
}

/// What a list without rows says first.
pub open spec fn nothing_in(scope: Scope) -> Seq<char> {
    match scope {
        Scope::CurrentFolder => "No sessions in this folder."@,
        Scope::Project => "No sessions in this project."@,
        Scope::All => "No sessions found."@,
    }
}

/// How a list without rows points to a wider scope.
pub open spec fn way_to(scope: Scope) -> Seq<char> {
    match scope {
        Scope::CurrentFolder => seq![],
        Scope::Project => "\nPress Ctrl-A to widen to this project's worktrees."@,
        Scope::All => "\nPress Ctrl-A to show all folders."@,
    }
}

/// What a list without rows says: that there is nothing, and which wider scope
/// the scope key leads to, exactly where it leads to one.
pub open spec fn empty_text(scope: Scope, all_enabled: bool) -> Seq<char> {
    let next = scope.toggled(all_enabled);
    if rank(next) > rank(scope) {
        nothing_in(scope) + way_to(next)
    } else {
        nothing_in(scope)
    }
}

/// What a list without rows says.
pub fn empty_list_message(scope: Scope, all_enabled: bool) -> (message: &'static str)
    ensures
        message@ == empty_text(scope, all_enabled),
{
    match scope {
        Scope::CurrentFolder => {
            proof {
                reveal_strlit(
                    "No sessions in this folder.\nPress Ctrl-A to widen to this project's worktrees.",
                );
                reveal_strlit("No sessions in this folder.");
                reveal_strlit("\nPress Ctrl-A to widen to this project's worktrees.");
                assert("No sessions in this folder.\nPress Ctrl-A to widen to this project's worktrees."@
                    =~= empty_text(scope, all_enabled));
            }
            "No sessions in this folder.\nPress Ctrl-A to widen to this project's worktrees."
        },
        Scope::Project => {
            if all_enabled {
                proof {
                    reveal_strlit("No sessions in this project.\nPress Ctrl-A to show all folders.");
                    reveal_strlit("No sessions in this project.");
                    reveal_strlit("\nPress Ctrl-A to show all folders.");
                    assert("No sessions in this project.\nPress Ctrl-A to show all folders."@
                        =~= empty_text(scope, all_enabled));
                }
                "No sessions in this project.\nPress Ctrl-A to show all folders."
            } else {
                "No sessions in this project."
            }
        },
        Scope::All => "No sessions found.",
    }
}

/// How many columns a text takes: what `ratatui::text::Span::width` returns for a
/// span that holds it.
pub uninterp spec fn text_columns(text: Seq<char>) -> nat;

/// `ratatui::text::Span::width` of a span that holds `text`: the text alone
/// determines it.
#[verifier::external_body]
fn span_width(text: &str) -> (columns: usize)
    ensures
        columns == text_columns(text@),
{
    ratatui::text::Span::raw(text).width()
}

/// How many columns the spans take, held at the largest `usize`.
pub open spec fn columns_of(spans: Seq<SpanView>) -> int
    decreases spans.len(),
{
    if spans.len() == 0 {
        0
    } else {
        least(columns_of(spans.drop_last()) + text_columns(spans.last().text), usize::MAX as int)
    }
}

/// How many columns the spans take.
fn used_columns(spans: &Vec<Span>) -> (columns: usize)
    ensures
        columns == columns_of(span_views(spans@)),
{
    let ghost views = span_views(spans@);
    let mut columns: usize = 0;
    let mut i: usize = 0;
    assert(views.take(0) =~= seq![]);
    while i < spans.len()
        invariant
            views == span_views(spans@),
            i <= spans@.len(),
            columns == columns_of(views.take(i as int)),
        decreases spans@.len() - i,
    {
        assert(views.take(i + 1).drop_last() =~= views.take(i as int));
        assert(views.take(i + 1).last() == spans@[i as int]@);
        columns = columns.saturating_add(span_width(spans[i].text.as_str()));
        i += 1;
    }
    assert(views.take(i as int) =~= views);
    columns
}

/// A row that is dimmed as a whole where its session is hidden.
pub open spec fn dimmed_if(line: LineView, hidden: bool) -> ListRowView {
    ListRowView {
        line,
        style: if hidden {
            Style::plain().add_modifier(Modifier::dim())
        } else {
            Style::plain()
        },
    }
}

/// Dim `row` as a whole where its session is hidden.
pub fn dim_row_if(row: ListRow, hidden: bool) -> (out: ListRow)
    ensures
        out.line == row.line,
        out.style == (if hidden {
            Style::plain().add_modifier(Modifier::dim())
        } else {
            row.style
        }),
{
    if hidden {
        ListRow { line: row.line, style: Style::plain().add_modifier(Modifier::dim()) }
    } else {
        row
    }
}

/// The head of a group.
pub open spec fn group_row(repo: Seq<char>, branch: Seq<char>) -> ListRowView {
    ListRowView {
        line: plain_line(
            seq![
                styled_span(
                    "▌ "@ + repo + "  ("@ + branch + ")"@,
                    Style::plain().fg(Color::Yellow).add_modifier(Modifier::bold()),
                ),
            ],
        ),
        style: Style::plain(),
    }
}

/// What every session's row leads with: the gutter, the moment, and the badge of
/// its agent, where one was reported.
pub open spec fn row_lead(app: App, session: Session, child: bool) -> Seq<SpanView> {
    let gutter = if child {
        CHILD_GUTTER@
    } else {
        ROW_GUTTER@
    };
    let lead = seq![
        raw_span(gutter),
        styled_span(
            time_text(session.timestamp),
            Style::plain().add_modifier(Modifier::dim()),
        ),
        raw_span("  "@),
    ];
    match app.agent(session.session_id@) {
        Some(agent) => lead + badge_spans(agent@, app.tick),
        None => lead,
    }
}

/// The mark of a hidden session's row, where it is one.
pub open spec fn hidden_mark(hidden: bool) -> Seq<SpanView> {
    if hidden {
        seq![styled_span(HIDDEN_ROW_MARKER@, Style::plain().add_modifier(Modifier::dim()))]
    } else {
        seq![]
    }
}

/// What follows the id on the row of a session that hangs off the row above: its
/// turn count, where that fits whole behind the `used` columns.
pub open spec fn child_tail(
    session: Session,
    hidden: bool,
    content_width: int,
    used: int,
) -> Seq<SpanView> {
    let msgs = msgs_text(session.msg_count as nat);
    let count = if msgs.len() <= floored_difference(content_width, used) {
        seq![styled_span(msgs, Style::plain().add_modifier(Modifier::dim()))]
    } else {
        seq![]
    };
    count + hidden_mark(hidden)
}

/// The row of a session that hangs off the row above: the start of its id, and
/// its turn count.
pub open spec fn child_row(app: App, session: Session, content_width: int) -> ListRowView {
    let hidden = app.hidden(session.session_id@);
    let lead = row_lead(app, session, true).push(raw_span(id_prefix(session.session_id@)));
    dimmed_if(
        plain_line(lead + child_tail(session, hidden, content_width, columns_of(lead))),
        hidden,
    )
}

/// The label of a row, with what the query matched marked.
pub open spec fn label_spans(query: Seq<char>, session: Session, label: Seq<char>) -> Seq<
    SpanView,
> {
    if query.len() > 0 && !session.matched@.is_empty() {
        run_spans(
            runs_of(graphemes(label), 0, session.matched@),
            Style::plain(),
            Style::plain().fg(Color::LightBlue).add_modifier(Modifier::bold()),
        )
    } else {
        seq![raw_span(label)]
    }
}

/// What follows the `used` columns that the row of a session leads with: its
/// label, and how many others it stands for. The columns of their number are held
/// back from the label.
pub open spec fn session_tail(
    query: Seq<char>,
    session: Session,
    folded: int,
    hidden: bool,
    content_width: int,
    used: int,
) -> Seq<SpanView> {
    if folded > 0 {
        let marker = lineage_text(folded as nat);
        let budget = label_budget(content_width, used, marker.len() as int);
        label_spans(query, session, fitted(session.label@, budget)) + seq![
            styled_span(marker, Style::plain().add_modifier(Modifier::dim())),
        ] + hidden_mark(hidden)
    } else {
        label_spans(query, session, session.label@) + hidden_mark(hidden)
    }
}

/// The row of a session that stands for `folded` others.
pub open spec fn session_row(
    app: App,
    session: Session,
    folded: int,
    content_width: int,
) -> ListRowView {
    let hidden = app.hidden(session.session_id@);
    let lead = row_lead(app, session, false);
    dimmed_if(
        plain_line(
            lead + session_tail(
                app.query@,
                session,
                folded,
                hidden,
                content_width,
                columns_of(lead),
            ),
        ),
        hidden,
    )
}

/// A row of the list.
pub open spec fn row_item(app: App, row: Row, content_width: int) -> ListRowView {
    match row {
        Row::Group { repo, branch } => group_row(repo@, branch@),
        Row::Session { index, hidden, child } => if child {
            child_row(app, app.sessions@[index as int], content_width)
        } else {
            session_row(app, app.sessions@[index as int], hidden as int, content_width)
        },
    }
}

/// The columns of spans depend on their texts alone.
proof fn lemma_columns_by_texts(a: Seq<SpanView>, b: Seq<SpanView>)
    requires
        span_texts(a) == span_texts(b),
    ensures
        columns_of(a) == columns_of(b),
    decreases a.len(),
{
    assert(a.len() == span_texts(a).len() && b.len() == span_texts(b).len());
    if a.len() > 0 {
        assert(span_texts(a.drop_last()) =~= span_texts(a).drop_last());
        assert(span_texts(b.drop_last()) =~= span_texts(b).drop_last());
        assert(span_texts(a).last() == a.last().text);
        assert(span_texts(b).last() == b.last().text);
        lemma_columns_by_texts(a.drop_last(), b.drop_last());
    }
}

/// The texts of two stretches of spans, in a row.
proof fn lemma_span_texts_concat(a: Seq<SpanView>, b: Seq<SpanView>)
    ensures
        span_texts(a + b) == span_texts(a) + span_texts(b),
{
    assert(span_texts(a + b) =~= span_texts(a) + span_texts(b));
}

/// Where the glyph of a badge stands among the spans of its row: behind the gutter,
/// the moment and a gap.
pub open spec fn glyph_at() -> int {
    3
}

/// Whether the glyph of the session's badge differs between the board's tick and
/// `tick`.
pub open spec fn badge_pulses(app: App, session: Session, tick: u64) -> bool {
    match app.agent(session.session_id@) {
        Some(agent) => pulses(agent@, app.tick, tick),
        None => false,
    }
}

/// Whether the glyph of the row's badge differs between the board's tick and `tick`.
pub open spec fn row_pulses(app: App, row: Row, tick: u64) -> bool {
    match row {
        Row::Group { .. } => false,
        Row::Session { index, .. } => badge_pulses(app, app.sessions@[index as int], tick),
    }
}

/// What a row leads with reads the same at every tick, and differs in the foreground
/// of its glyph alone.
proof fn lemma_leads_read_the_same(app: App, session: Session, child: bool, tick: u64)
    ensures
        span_texts(row_lead(app, session, child)) == span_texts(
            row_lead(App { tick, ..app }, session, child),
        ),
        ({
            let a = row_lead(app, session, child);
            let b = row_lead(App { tick, ..app }, session, child);
            if badge_pulses(app, session, tick) {
                &&& a.len() > glyph_at()
                &&& b == a.update(glyph_at(), recolored(a[glyph_at()], b[glyph_at()]))
                &&& b[glyph_at()].style.fg != a[glyph_at()].style.fg
                &&& a[glyph_at()].text == BADGE_DOT@
            } else {
                b == a
            }
        }),
{
    let a = row_lead(app, session, child);
    let b = row_lead(App { tick, ..app }, session, child);
    assert(App { tick, ..app }.agent(session.session_id@) == app.agent(session.session_id@));
    match app.agent(session.session_id@) {
        Some(agent) => {
            let lead = a.take(3);
            lemma_the_pulse_never_rewrites_a_badge(agent@, app.tick, tick);
            assert(a =~= lead + badge_spans(agent@, app.tick));
            assert(b =~= lead + badge_spans(agent@, tick));
            lemma_span_texts_concat(lead, badge_spans(agent@, app.tick));
            lemma_span_texts_concat(lead, badge_spans(agent@, tick));
            if badge_pulses(app, session, tick) {
                assert(b =~= a.update(glyph_at(), recolored(a[glyph_at()], b[glyph_at()])));
            }
        },
        None => {},
    }
}

/// The pulse changes a color and never a text: between two ticks a row differs in
/// the foreground of its badge's glyph alone, and that only, and always, where the
/// agent is active and the phases differ. So a link in it is never rewritten.
pub proof fn lemma_the_pulse_never_rewrites_a_row(
    app: App,
    row: Row,
    content_width: int,
    tick: u64,
)
    ensures
        span_texts(row_item(app, row, content_width).line.spans) == span_texts(
            row_item(App { tick, ..app }, row, content_width).line.spans,
        ),
        ({
            let a = row_item(app, row, content_width);
            let b = row_item(App { tick, ..app }, row, content_width);
            if row_pulses(app, row, tick) {
                let before = a.line.spans[glyph_at()];
                let after = b.line.spans[glyph_at()];
                &&& a.line.spans.len() > glyph_at()
                &&& b == (ListRowView {
                    line: LineView {
                        spans: a.line.spans.update(glyph_at(), recolored(before, after)),
                        ..a.line
                    },
                    ..a
                })
                &&& after.style.fg != before.style.fg
                &&& before.text == BADGE_DOT@
            } else {
                b == a
            }
        }),
{
    let other = App { tick, ..app };
    match row {
        Row::Group { .. } => {},
        Row::Session { index, hidden, child } => {
            let session = app.sessions@[index as int];
            assert(other.hidden(session.session_id@) == app.hidden(session.session_id@));
            lemma_leads_read_the_same(app, session, child, tick);
            let mut a = row_lead(app, session, child);
            let mut b = row_lead(other, session, child);
            if child {
                let id = raw_span(id_prefix(session.session_id@));
                assert(span_texts(a.push(id)) =~= span_texts(a).push(id.text));
                assert(span_texts(b.push(id)) =~= span_texts(b).push(id.text));
                a = a.push(id);
                b = b.push(id);
                lemma_columns_by_texts(a, b);
                let tail = child_tail(
                    session,
                    app.hidden(session.session_id@),
                    content_width,
                    columns_of(a),
                );
                lemma_span_texts_concat(a, tail);
                lemma_span_texts_concat(b, tail);
                if badge_pulses(app, session, tick) {
                    let glyph = recolored(a[glyph_at()], b[glyph_at()]);
                    assert(b + tail =~= (a + tail).update(glyph_at(), glyph));
                }
            } else {
                lemma_columns_by_texts(a, b);
                let tail = session_tail(
                    app.query@,
                    session,
                    hidden as int,
                    app.hidden(session.session_id@),
                    content_width,
                    columns_of(a),
                );
                lemma_span_texts_concat(a, tail);
                lemma_span_texts_concat(b, tail);
                if badge_pulses(app, session, tick) {
                    let glyph = recolored(a[glyph_at()], b[glyph_at()]);
                    assert(b + tail =~= (a + tail).update(glyph_at(), glyph));
                }
            }
        },
    }
}

/// The head of a group.
fn build_group(repo: &str, branch: &str) -> (row: ListRow)
    ensures
        row@ == group_row(repo@, branch@),
{
    let mut head = concat3("▌ ", repo, "  (");
    head.append(branch);
    head.append(")");
    let style = Style::plain().fg(Color::Yellow).add_modifier(Modifier::bold());
    ListRow { line: Line::from_span(Span::styled(head, style)), style: Style::plain() }
}

/// What a session's row leads with.
fn build_lead(app: &App, session: &Session, child: bool) -> (spans: Vec<Span>)
    ensures
        span_views(spans@) == row_lead(*app, *session, child),
{
    let gutter = if child {
        CHILD_GUTTER
    } else {
        ROW_GUTTER
    };
    let mut spans: Vec<Span> = Vec::new();
    spans.push(Span::raw(gutter));
    spans.push(
        Span::styled(short_time(session.timestamp), Style::plain().add_modifier(Modifier::dim())),
    );
    spans.push(Span::raw("  "));
    assert(span_views(spans@) =~= seq![
        raw_span(gutter@),
        styled_span(time_text(session.timestamp), Style::plain().add_modifier(Modifier::dim())),
        raw_span("  "@),
    ]);
    if let Some(agent) = app.reported_agent(session.session_id.as_str()) {
        push_badge(&mut spans, agent, app.tick);
    }
    spans
}

/// Append the mark of a hidden session's row, where it is one.
fn push_hidden_mark(spans: &mut Vec<Span>, hidden: bool)
    ensures
        span_views(final(spans)@) == span_views(old(spans)@) + hidden_mark(hidden),
{
    let ghost before = span_views(spans@);
    if hidden {
        spans.push(
            Span::styled(HIDDEN_ROW_MARKER.to_owned(), Style::plain().add_modifier(Modifier::dim())),
        );
    }
    assert(span_views(spans@) =~= before + hidden_mark(hidden));
}

/// The row of a session that hangs off the row above.
fn build_child(app: &App, session: &Session, content_width: usize) -> (row: ListRow)
    ensures
        row@ == child_row(*app, *session, content_width as int),
{
    let hidden = app.is_hidden(session.session_id.as_str());
    let mut spans = build_lead(app, session, true);
    let id = short_id(session.session_id.as_str());
    spans.push(Span::raw(id.as_str()));
    let ghost lead = span_views(spans@);
    let used = used_columns(&spans);
    let ghost mut count: Seq<SpanView> = seq![];
    if let Some(msgs) = fit_child_msgs(session.msg_count, content_width, used) {
        let span = Span::styled(msgs, Style::plain().add_modifier(Modifier::dim()));
        proof {
            count = seq![span@];
        }
        spans.push(span);
    }
    assert(span_views(spans@) =~= lead + count);
    push_hidden_mark(&mut spans, hidden);
    assert(span_views(spans@) =~= lead + child_tail(
        *session,
        hidden,
        content_width as int,
        columns_of(lead),
    ));
    dim_row_if(ListRow { line: Line::from_spans(spans), style: Style::plain() }, hidden)
}

/// The row of a session that stands for `folded` others.
fn build_session(app: &App, session: &Session, folded: usize, content_width: usize) -> (row:
    ListRow)
    ensures
        row@ == session_row(*app, *session, folded as int, content_width as int),
{
    let hidden = app.is_hidden(session.session_id.as_str());
    let mut spans = build_lead(app, session, false);
    let ghost lead = span_views(spans@);
    let mut marker: Option<String> = None;
    let mut label = session.label.clone();
    if folded > 0 {
        let mark = lineage_marker(folded);
        let used = used_columns(&spans);
        label = fit_label(
            session.label.as_str(),
            content_width,
            used,
            mark.as_str().unicode_len(),
        );
        marker = Some(mark);
    }
    let ghost shown = label@;
    if app.query.as_str().unicode_len() > 0 && !session.matched.is_empty() {
        let mut marked = highlight_label_spans(
            label.as_str(),
            &session.matched,
            Style::plain(),
            Style::plain().fg(Color::LightBlue).add_modifier(Modifier::bold()),
        );
        let ghost more = marked@;
        spans.append(&mut marked);
        assert(span_views(spans@) =~= lead + span_views(more));
    } else {
        spans.push(Span::raw(label.as_str()));
    }
    assert(span_views(spans@) =~= lead + label_spans(app.query@, *session, shown));
    let ghost labelled = span_views(spans@);
    if let Some(mark) = marker {
        spans.push(Span::styled(mark, Style::plain().add_modifier(Modifier::dim())));
        assert(span_views(spans@) =~= labelled + seq![
            styled_span(
                lineage_text(folded as nat),
                Style::plain().add_modifier(Modifier::dim()),
            ),
        ]);
    }
    push_hidden_mark(&mut spans, hidden);
    assert(span_views(spans@) =~= lead + session_tail(
        app.query@,
        *session,
        folded as int,
        hidden,
        content_width as int,
        columns_of(lead),
    ));
    dim_row_if(ListRow { line: Line::from_spans(spans), style: Style::plain() }, hidden)
}

/// A row of the list.
fn build_row(app: &App, row: &Row, content_width: usize) -> (item: ListRow)
    requires
        row matches Row::Session { index, .. } ==> index < app.sessions@.len(),
    ensures
        item@ == row_item(*app, *row, content_width as int),
{
    match row {
        Row::Group { repo, branch } => build_group(repo.as_str(), branch.as_str()),
        Row::Session { index, hidden, child } => {
            let session = &app.sessions[*index];
            if *child {
                build_child(app, session, content_width)
            } else {
                build_session(app, session, *hidden, content_width)
            }
        },
    }
}

/// The columns of a row: what the border leaves, less what every row is indented
/// by.
pub open spec fn row_columns(area: Rect) -> int {
    floored_difference(framed(area).width as int, LIST_HIGHLIGHT_SYMBOL@.len() as int)
}

/// The rows of the list.
pub open spec fn row_items(app: App, content_width: int) -> Seq<ListRowView> {
    app.rows@.map_values(|row: Row| row_item(app, row, content_width))
}

/// Lines of plain text.
pub open spec fn text_lines(text: Seq<char>) -> Seq<LineView> {
    lines(text).map_values(|line: Seq<char>| plain_line(seq![raw_span(line)]))
}

/// Lines of plain text.
fn build_text_lines(text: &str) -> (out: Vec<Line>)
    ensures
        line_views(out@) == text_lines(text@),
{
    let all = split_lines(text);
    let ghost wanted = text_lines(text@);
    let mut out: Vec<Line> = Vec::new();
    let mut i: usize = 0;
    assert(line_views(out@) =~= wanted.take(0));
    while i < all.len()
        invariant
            i <= all@.len(),
            texts(all@) == lines(text@),
            wanted == text_lines(text@),
            line_views(out@) == wanted.take(i as int),
        decreases all@.len() - i,
    {
        out.push(Line::from_span(Span::raw(all[i].as_str())));
        assert(lines(text@)[i as int] == all@[i as int]@);
        assert(wanted.take(i + 1) =~= wanted.take(i as int).push(wanted[i as int]));
        i += 1;
    }
    assert(wanted.take(i as int) =~= wanted);
    out
}

/// The first row that a list of `rows` rows shows in `inner`, where it stood at
/// `offset`: the nearest one from which the selected row is in view. A list without
/// a selection starts over, and one that has no cell stays where it is.
pub open spec fn settled_offset(
    inner: Rect,
    rows: int,
    selected: Option<usize>,
    offset: int,
) -> int {
    match selected {
        None => 0,
        Some(index) => if inner.width == 0 || inner.height == 0 {
            offset
        } else {
            let start = least(offset, rows - 1);
            let row = least(index as int, rows - 1);
            if row < start {
                row
            } else if row >= start + inner.height {
                row - inner.height + 1
            } else {
                start
            }
        },
    }
}

/// What `ratatui::widgets::ListState::offset` returns once `ratatui::widgets::List`
/// was rendered with that state, inside a border on `area`, where the list has
/// `rows` items of a row each and the state was given `offset` and then `selected`:
/// the nearest offset from which the selected item is in view.
#[verifier::external_body]
fn list_offset(area: Rect, rows: usize, selected: Option<usize>, offset: usize) -> (first: usize)
    requires
        rows > 0,
        on_grid(area),
    ensures
        first == settled_offset(framed(area), rows as int, selected, offset as int),
{
    let outer = ratatui::layout::Rect { x: area.x, y: area.y, width: area.width, height: area.height };
    let items = (0..rows).map(|_row| ratatui::widgets::ListItem::new(ratatui::text::Line::default()));
    let list = ratatui::widgets::List::new(items).block(ratatui::widgets::Block::bordered());
    let mut state = ratatui::widgets::ListState::default().with_offset(offset);
    state.select(selected);
    let mut scratch = ratatui::buffer::Buffer::empty(outer);
    ratatui::widgets::StatefulWidget::render(list, outer, &mut scratch, &mut state);
    state.offset()
}

/// The first row that the list shows on `area`.
pub open spec fn first_row(app: App, area: Rect) -> int {
    settled_offset(
        framed(area),
        app.rows@.len() as int,
        app.selected_row,
        least(app.scroll as int, app.rows@.len() - 1),
    )
}

/// The state that a drawn list leaves: it keeps where it stands. A list without rows
/// leaves it as it was.
pub open spec fn after_list(app: App, area: Rect) -> App {
    if app.rows@.len() == 0 {
        app
    } else {
        App { scroll: first_row(app, area) as usize, ..app }
    }
}

/// The selected row is in view, on every list that has a cell, and a list that was
/// drawn stands where it stood when it is drawn again.
pub proof fn lemma_a_drawn_list_shows_its_selection(app: App, area: Rect)
    requires
        app.rows@.len() > 0,
    ensures
        0 <= first_row(app, area) < app.rows@.len(),
        app.selected_row matches Some(index) ==> framed(area).width > 0 && framed(area).height > 0
            ==> {
            let row = least(index as int, app.rows@.len() - 1);
            first_row(app, area) <= row < first_row(app, area) + framed(area).height
        },
        first_row(after_list(app, area), area) == first_row(app, area),
        after_list(after_list(app, area), area) == after_list(app, area),
{
}

/// The list of sessions. One without rows says why.
pub open spec fn list_draws(app: App, area: Rect) -> Seq<DrawView> {
    if app.rows@.len() == 0 {
        seq![
            DrawView::Text(
                ParagraphView {
                    area,
                    lines: text_lines(empty_text(app.scope, app.all_scope_enabled)),
                    style: Style::plain().add_modifier(Modifier::dim()),
                    alignment: Alignment::Left,
                    frame: Some(titled(" sessions "@)),
                    wrap: false,
                    scroll: 0,
                },
            ),
        ]
    } else {
        seq![
            DrawView::List(
                RowListView {
                    area,
                    frame: titled(" sessions "@),
                    rows: row_items(app, row_columns(area)),
                    highlight: Style::plain().add_modifier(Modifier::reversed()).add_modifier(
                        Modifier::bold(),
                    ),
                    symbol: LIST_HIGHLIGHT_SYMBOL@,
                    offset: first_row(app, area) as usize,
                    selected: app.selected_row,
                },
            ),
        ]
    }
}

/// Draw the list of sessions from the row `first` on, where it has rows.
fn build_list(app: &App, area: Rect, first: usize) -> (draws: Vec<Draw>)
    requires
        app.rows_valid(),
        app.rows@.len() > 0 ==> first == first_row(*app, area),
    ensures
        draw_views(draws@) == list_draws(*app, area),
{
    let mut draws: Vec<Draw> = Vec::new();
    let frame = Frame::titled(" sessions ");
    if app.rows.len() == 0 {
        let message = empty_list_message(app.scope, app.all_scope_enabled);
        draws.push(
            Draw::Text(
                Paragraph {
                    area,
                    lines: build_text_lines(message),
                    style: Style::plain().add_modifier(Modifier::dim()),
                    alignment: Alignment::Left,
                    frame: Some(frame),
                    wrap: false,
                    scroll: 0,
                },
            ),
        );
        assert(draw_views(draws@) =~= list_draws(*app, area));
        return draws;
    }
    let content_width: usize = (frame_inner(area).width as usize).saturating_sub(
        LIST_HIGHLIGHT_SYMBOL.unicode_len(),
    );
    let ghost wanted = row_items(*app, content_width as int);
    let mut rows: Vec<ListRow> = Vec::new();
    let mut i: usize = 0;
    assert(row_views(rows@) =~= wanted.take(0));
    while i < app.rows.len()
        invariant
            app.rows_valid(),
            i <= app.rows@.len(),
            wanted == row_items(*app, content_width as int),
            row_views(rows@) == wanted.take(i as int),
        decreases app.rows@.len() - i,
    {
        let ghost row = app.rows@[i as int];
        rows.push(build_row(app, &app.rows[i], content_width));
        assert(wanted.take(i + 1) =~= wanted.take(i as int).push(wanted[i as int]));
        i += 1;
    }
    assert(wanted.take(i as int) =~= wanted);
    draws.push(
        Draw::List(
            RowList {
                area,
                frame,
                rows,
                highlight: Style::plain().add_modifier(Modifier::reversed()).add_modifier(
                    Modifier::bold(),
                ),
                symbol: LIST_HIGHLIGHT_SYMBOL.to_owned(),
                offset: first,
                selected: app.selected_row,
            },
        ),
    );
    assert(draw_views(draws@) =~= list_draws(*app, area));
    draws
}

/// Draw the list of sessions, and keep where it stands for the next time.
pub fn render_list(app: &mut App, area: Rect) -> (draws: Vec<Draw>)
    requires
        old(app).rows_valid(),
        on_grid(area),
    ensures
        draw_views(draws@) == list_draws(*old(app), area),
        *final(app) == after_list(*old(app), area),
{
    let rows: usize = app.rows.len();
    if rows == 0 {
        return build_list(app, area, 0);
    }
    let offset: usize = if app.scroll < rows - 1 {
        app.scroll
    } else {
        rows - 1
    };
    let first = list_offset(area, rows, app.selected_row, offset);
    let draws = build_list(app, area, first);
    app.scroll = first;
    draws
}

/// How the badge of a session's agent reads, where one was reported.
pub open spec fn badge_text(app: App, session: Session) -> Seq<char> {
    match app.agent(session.session_id@) {
        Some(agent) => glyph_of(agent@.activity()) + " "@ + agent@.line() + "  "@,
        None => seq![],
    }
}

/// How the mark of a hidden session reads, where it is one.
pub open spec fn hidden_text(app: App, session: Session) -> Seq<char> {
    if app.hidden(session.session_id@) {
        HIDDEN_ROW_MARKER@
    } else {
        seq![]
    }
}

/// What a row shows of its session's label: as much as its place leaves where the row
/// stands for others, else the whole label.
pub open spec fn shown_label(
    app: App,
    session: Session,
    folded: int,
    content_width: int,
) -> Seq<char> {
    if folded > 0 {
        let used = columns_of(row_lead(app, session, false));
        let marker = lineage_text(folded as nat).len() as int;
        fitted(session.label@, label_budget(content_width, used, marker))
    } else {
        session.label@
    }
}

/// A row leads with the moment of its session and the badge of its agent.
proof fn lemma_a_lead_reads_its_session(app: App, session: Session, child: bool)
    ensures
        line_text(row_lead(app, session, child)) == (if child {
            CHILD_GUTTER@
        } else {
            ROW_GUTTER@
        }) + time_text(session.timestamp) + "  "@ + badge_text(app, session),
{
    let none: Seq<SpanView> = seq![];
    let lead = row_lead(app, session, child);
    let first = seq![lead[0], lead[1], lead[2]];
    assert(first =~= seq![lead[0]].push(lead[1]).push(lead[2]));
    lemma_a_line_reads_its_spans(none, lead[0]);
    lemma_a_line_reads_its_spans(seq![lead[0]], lead[1]);
    lemma_a_line_reads_its_spans(seq![lead[0]].push(lead[1]), lead[2]);
    match app.agent(session.session_id@) {
        Some(agent) => {
            let badge = badge_spans(agent@, app.tick);
            assert(lead =~= first + badge);
            lemma_line_text_is_additive(first, badge);
            lemma_a_badge_reads_as_its_agent(agent@, app.tick);
        },
        None => {
            assert(lead =~= first);
            assert(line_text(first) + badge_text(app, session) =~= line_text(first));
        },
    }
}

/// The mark of a hidden row reads so.
proof fn lemma_a_mark_reads(app: App, session: Session)
    ensures
        line_text(hidden_mark(app.hidden(session.session_id@))) == hidden_text(app, session),
{
    let none: Seq<SpanView> = seq![];
    lemma_a_line_reads_its_spans(
        none,
        styled_span(HIDDEN_ROW_MARKER@, Style::plain().add_modifier(Modifier::dim())),
    );
    assert(line_text(none) =~= seq![]);
}

/// Marking a label leaves its text, where its clusters spell it.
proof fn lemma_a_marked_label_reads_as_itself(
    query: Seq<char>,
    session: Session,
    label: Seq<char>,
)
    requires
        concatenated(graphemes(label)) == label,
    ensures
        line_text(label_spans(query, session, label)) == label,
{
    let none: Seq<SpanView> = seq![];
    lemma_a_line_reads_its_spans(none, raw_span(label));
    lemma_runs_mark_whole_clusters(graphemes(label), 0, session.matched@);
    lemma_run_spans_text(
        runs_of(graphemes(label), 0, session.matched@),
        Style::plain(),
        Style::plain().fg(Color::LightBlue).add_modifier(Modifier::bold()),
    );
}

/// A session's row reads as its session: the moment, its agent, its label whole, or as
/// much of it as its place leaves where the row stands for others, how many those are,
/// and that it is hidden where it is. What the query matched changes no character.
pub proof fn lemma_a_row_reads_as_its_session(
    app: App,
    session: Session,
    folded: int,
    content_width: int,
)
    requires
        0 <= folded,
        ({
            let shown = shown_label(app, session, folded, content_width);
            concatenated(graphemes(shown)) == shown
        }),
    ensures
        ({
            let marker = if folded > 0 {
                lineage_text(folded as nat)
            } else {
                seq![]
            };
            line_text(session_row(app, session, folded, content_width).line.spans) == ROW_GUTTER@
                + time_text(session.timestamp) + "  "@ + badge_text(app, session) + shown_label(
                app,
                session,
                folded,
                content_width,
            ) + marker + hidden_text(app, session)
        }),
{
    let hidden = app.hidden(session.session_id@);
    let lead = row_lead(app, session, false);
    let row = session_row(app, session, folded, content_width).line.spans;
    let mark = hidden_mark(hidden);
    lemma_a_lead_reads_its_session(app, session, false);
    lemma_a_mark_reads(app, session);
    let none: Seq<SpanView> = seq![];
    if folded > 0 {
        let marker = lineage_text(folded as nat);
        let budget = label_budget(content_width, columns_of(lead), marker.len() as int);
        let shown = fitted(session.label@, budget);
        let label = label_spans(app.query@, session, shown);
        let count = styled_span(marker, Style::plain().add_modifier(Modifier::dim()));
        lemma_a_marked_label_reads_as_itself(app.query@, session, shown);
        lemma_a_line_reads_its_spans(none, count);
        lemma_line_text_is_additive(lead, label);
        lemma_line_text_is_additive(lead + label, seq![count]);
        lemma_line_text_is_additive(lead + label + seq![count], mark);
        assert(row =~= lead + label + seq![count] + mark);
    } else {
        let label = label_spans(app.query@, session, session.label@);
        lemma_a_marked_label_reads_as_itself(app.query@, session, session.label@);
        lemma_line_text_is_additive(lead, label);
        lemma_line_text_is_additive(lead + label, mark);
        assert(row =~= lead + label + mark);
        let text = line_text(lead) + session.label@;
        assert(text + seq![] =~= text);
    }
}

/// The row of a session that hangs off the row above reads as its session: the moment,
/// its agent, the start of its id, its turn count where that fits whole behind them,
/// and that it is hidden where it is.
pub proof fn lemma_a_child_row_reads_as_its_session(
    app: App,
    session: Session,
    content_width: int,
)
    ensures
        ({
            let lead = row_lead(app, session, true).push(raw_span(id_prefix(session.session_id@)));
            let msgs = msgs_text(session.msg_count as nat);
            let count = if columns_of(lead) + msgs.len() <= content_width || msgs.len() == 0 {
                msgs
            } else {
                seq![]
            };
            line_text(child_row(app, session, content_width).line.spans) == CHILD_GUTTER@
                + time_text(session.timestamp) + "  "@ + badge_text(app, session) + id_prefix(
                session.session_id@,
            ) + count + hidden_text(app, session)
        }),
{
    let hidden = app.hidden(session.session_id@);
    let id = raw_span(id_prefix(session.session_id@));
    let lead = row_lead(app, session, true).push(id);
    let row = child_row(app, session, content_width).line.spans;
    let mark = hidden_mark(hidden);
    let msgs = msgs_text(session.msg_count as nat);
    let span = styled_span(msgs, Style::plain().add_modifier(Modifier::dim()));
    let none: Seq<SpanView> = seq![];
    lemma_a_lead_reads_its_session(app, session, true);
    lemma_a_mark_reads(app, session);
    lemma_a_line_reads_its_spans(row_lead(app, session, true), id);
    lemma_a_line_reads_its_spans(none, span);
    let text = line_text(lead);
    if msgs.len() <= floored_difference(content_width, columns_of(lead)) {
        lemma_line_text_is_additive(lead, seq![span]);
        lemma_line_text_is_additive(lead + seq![span], mark);
        assert(row =~= lead + seq![span] + mark);
    } else {
        lemma_line_text_is_additive(lead, mark);
        assert(row =~= lead + mark);
        assert(text + seq![] =~= text);
    }
}

/// A hidden session's row is dimmed as a whole and says so at its end, and no other row
/// is dimmed as a whole.
pub proof fn lemma_a_hidden_row_is_dimmed(
    app: App,
    session: Session,
    folded: int,
    content_width: int,
)
    ensures
        session_row(app, session, folded, content_width).style.added.bits & Modifier::dim().bits
            != 0 <==> app.hidden(session.session_id@),
        child_row(app, session, content_width).style == session_row(
            app,
            session,
            folded,
            content_width,
        ).style,
        app.hidden(session.session_id@) ==> session_row(
            app,
            session,
            folded,
            content_width,
        ).line.spans.last().text == HIDDEN_ROW_MARKER@ && child_row(
            app,
            session,
            content_width,
        ).line.spans.last().text == HIDDEN_ROW_MARKER@,
{
    assert(0u16 & 0x0002u16 == 0 && (0u16 | 0x0002u16) & 0x0002u16 != 0) by (bit_vector);
}

/// The head of a group names its repository and its branch.
pub proof fn lemma_a_group_is_named(repo: Seq<char>, branch: Seq<char>)
    ensures
        line_text(group_row(repo, branch).line.spans) == "▌ "@ + repo + "  ("@ + branch + ")"@,
        repo == line_text(group_row(repo, branch).line.spans).subrange(2, 2 + repo.len() as int),
{
    let none: Seq<SpanView> = seq![];
    reveal_strlit("▌ ");
    lemma_a_line_reads_its_spans(none, group_row(repo, branch).line.spans[0]);
    assert(repo =~= ("▌ "@ + repo + "  ("@ + branch + ")"@).subrange(2, 2 + repo.len() as int));
}

/// Each row of the list stands for its row of the board, in order, and every row has
/// the columns that the border and the mark of the selection leave.
pub proof fn lemma_a_list_shows_its_rows(app: App, area: Rect, i: int)
    requires
        app.rows@.len() > 0,
        0 <= i < app.rows@.len(),
    ensures
        list_draws(app, area)[0] matches DrawView::List(list) && list.rows.len()
            == app.rows@.len() && list.rows[i] == row_item(app, app.rows@[i], row_columns(area))
            && list.selected == app.selected_row && list.area == area,
        area.width >= 4 ==> row_columns(area) == area.width - 4,
        area.width < 4 ==> row_columns(area) == 0,
{
    reveal_strlit("› ");
}

/// A list moves no further than it must: it stands still where the selected row is in
/// view, a row above becomes the first one in view, and one below the last.
pub proof fn lemma_a_list_moves_no_further_than_it_must(app: App, area: Rect)
    requires
        app.selected_row matches Some(index) && index < app.rows@.len(),
        app.scroll < app.rows@.len(),
        area.width > 2 && area.height > 2,
    ensures
        ({
            let row = app.selected_row.unwrap() as int;
            let first = first_row(app, area);
            let height = area.height - 2;
            &&& app.scroll <= row < app.scroll + height ==> first == app.scroll
            &&& row < app.scroll ==> first == row
            &&& app.scroll + height <= row ==> first + height == row + 1
        }),
{
}

/// An empty list points to the scope key exactly where the key leads to a wider scope,
/// and then it names that scope behind what it says in any case.
pub proof fn lemma_an_empty_list_points_to_a_wider_scope(scope: Scope, all_enabled: bool)
    ensures
        nothing_in(scope).is_prefix_of(empty_text(scope, all_enabled)),
        empty_text(scope, all_enabled) != nothing_in(scope) <==> scope == Scope::CurrentFolder || (
        scope == Scope::Project && all_enabled),
        empty_text(Scope::CurrentFolder, true) == empty_text(Scope::CurrentFolder, false),
{
    reveal_strlit("\nPress Ctrl-A to widen to this project's worktrees.");
    reveal_strlit("\nPress Ctrl-A to show all folders.");
    let text = empty_text(scope, all_enabled);
    let start = nothing_in(scope);
    assert(text.subrange(0, start.len() as int) =~= start);
    assert(text.len() == start.len() ==> text == start);
}

/// The columns of two stretches of spans add up, and those of one span are its text's.
pub proof fn lemma_columns_add_up(a: Seq<SpanView>, b: Seq<SpanView>, span: SpanView)
    ensures
        columns_of(a + b) == least(columns_of(a) + columns_of(b), usize::MAX as int),
        columns_of(seq![span]) == least(text_columns(span.text) as int, usize::MAX as int),
        0 <= columns_of(a) <= usize::MAX,
    decreases a.len() + b.len(),
{
    let none: Seq<SpanView> = seq![];
    assert(seq![span].drop_last() =~= none);
    assert(columns_of(none) == 0);
    if b.len() == 0 {
        assert(a + b =~= a);
        if a.len() > 0 {
            lemma_columns_add_up(a.drop_last(), b, span);
        }
    } else {
        lemma_columns_add_up(a, b.drop_last(), span);
        lemma_columns_add_up(b.drop_last(), none, span);
        assert((a + b).drop_last() =~= a + b.drop_last());
    }
}

/// Drawing a list touches nothing but where it stands, and an empty list not even that.
pub proof fn lemma_a_drawn_list_touches_its_place_alone(app: App, area: Rect)
    ensures
        ({
            let back = (App { scroll: app.scroll, ..after_list(app, area) });
            back == app
        }),
        app.rows@.len() == 0 ==> after_list(app, area).scroll == app.scroll,
{
}

} // verus!
