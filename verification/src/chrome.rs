//! The lines around the board: the header, the search line and the help line.

use vstd::prelude::*;
use crate::app::{App, ComposeState, ComposeTarget, Scope, SearchMode};
use crate::draw::{draw_views, plain_paragraph, Draw, DrawView, Paragraph, ParagraphView};
use crate::geometry::Rect;
use crate::labels::{
    blink_visible, chord_hint, chord_text, lemma_words_are_words, version_label, version_text,
    TERMINAL_COLUMNS,
};
use crate::paths::{called, dir_name, name_bytes, reads_as_spelled};
use crate::style::{
    lemma_a_line_reads_its_spans, line_text, plain_line, raw_span, span_views, styled_span,
    Alignment, Color, Line, Modifier, Span, SpanView, Style,
};
use crate::text::{
    concat, concat3, decimal, digits, is_white, join, joined, lemma_a_number_reads_back,
    split_words, value_of, words,
};
use crate::worktrees::{answers, names_root};

verus! {

broadcast use {
    crate::draw::lemma_draw_views_push,
    crate::style::lemma_span_views_push,
};

/// What stands between two segments of the header.
pub const HEADER_SEPARATOR: &'static str = "  ·  ";

/// What the launch directory is called.
pub fn launch_dir_name(app: &App) -> (name: String)
    ensures
        name@ == dir_name(app.launch_dir@),
        reads_as_spelled(name_bytes(app.launch_dir@)),
{
    called(app.launch_dir.as_slice())
}

/// What the project is called: the name that git gave it, else what the root of
/// the repository is called.
pub open spec fn project_text(app: App) -> Seq<char> {
    match app.worktrees@.label {
        Some(label) => label,
        None => dir_name(app.repo_root@),
    }
}

/// What the project is called.
pub fn project_name(app: &App) -> (name: String)
    ensures
        name@ == project_text(*app),
        app.worktrees@.label is None ==> reads_as_spelled(name_bytes(app.repo_root@)),
{
    match app.worktrees.label() {
        Some(label) => label.to_owned(),
        None => called(app.repo_root.as_slice()),
    }
}

/// A project has one name: where git gave it none, and `app.repo_root` is what the
/// repository-root function answers for the launch directory, the header calls it
/// what `project_root_name` calls it.
pub proof fn lemma_a_project_has_one_name<F: Fn(&[u8]) -> Vec<u8>>(
    app: App,
    repo_root_of: F,
    name: Seq<char>,
)
    requires
        app.worktrees@.label is None,
        forall|root: Vec<u8>| #[trigger]
            answers(repo_root_of, app.launch_dir@, root) ==> root@ == app.repo_root@,
        names_root(repo_root_of, app.launch_dir@, name),
    ensures
        name == project_text(app),
        app.scope == Scope::Project ==> scope_text(app) == "project:"@ + name,
{
}

/// How the header names the scope.
pub open spec fn scope_text(app: App) -> Seq<char> {
    match app.scope {
        Scope::CurrentFolder => "folder:"@ + dir_name(app.launch_dir@),
        Scope::Project => "project:"@ + project_text(app),
        Scope::All => "all folders"@,
    }
}

/// How the header names the search mode.
pub open spec fn mode_text(mode: SearchMode) -> Seq<char> {
    match mode {
        SearchMode::NameOnly => "name"@,
        SearchMode::NameAndContent => "name+content"@,
    }
}

/// The left side of the header: the title, the scope, the search mode, how many
/// sessions are on the board out of how many, and how many are hidden where some
/// are.
pub open spec fn header_spans(app: App) -> Seq<SpanView> {
    let dim = Style::plain().add_modifier(Modifier::dim());
    let always = seq![
        styled_span(
            " snapback "@,
            Style::plain().fg(Color::Black).bg(Color::Cyan).add_modifier(Modifier::bold()),
        ),
        raw_span("  "@),
        styled_span(scope_text(app), Style::plain().fg(Color::Green)),
        raw_span(HEADER_SEPARATOR@),
        raw_span("search: "@),
        styled_span(mode_text(app.search_mode), Style::plain().fg(Color::Yellow)),
        raw_span(HEADER_SEPARATOR@),
        styled_span(
            digits(app.counts.visible as nat) + " / "@ + digits(app.counts.total as nat)
                + " sessions"@,
            dim,
        ),
    ];
    if app.counts.hidden > 0 {
        always.push(raw_span(HEADER_SEPARATOR@)).push(
            styled_span(digits(app.counts.hidden as nat) + " hidden"@, dim),
        )
    } else {
        always
    }
}

/// Whether the directory that the header names reads as it is spelled, where it is
/// UTF-8.
pub open spec fn header_reads_as_spelled(app: App) -> bool {
    match app.scope {
        Scope::CurrentFolder => reads_as_spelled(name_bytes(app.launch_dir@)),
        Scope::Project => app.worktrees@.label is None ==> reads_as_spelled(
            name_bytes(app.repo_root@),
        ),
        Scope::All => true,
    }
}

/// The header: the state of the board on the left, the version on the right.
pub open spec fn header_draws(app: App, area: Rect) -> Seq<DrawView> {
    let version = version_text(app.build.debug_build, app.build.git_hash@, app.build.dirty);
    seq![
        DrawView::Text(plain_paragraph(seq![plain_line(header_spans(app))], area)),
        DrawView::Text(
            ParagraphView {
                alignment: Alignment::Right,
                ..plain_paragraph(
                    seq![
                        plain_line(
                            seq![
                                styled_span(
                                    version,
                                    Style::plain().add_modifier(Modifier::dim()),
                                ),
                            ],
                        ),
                    ],
                    area,
                )
            },
        ),
    ]
}

/// Draw the header.
pub fn render_header(app: &App, area: Rect) -> (draws: Vec<Draw>)
    ensures
        draw_views(draws@) == header_draws(*app, area),
        header_reads_as_spelled(*app),
{
    let scope = match app.scope {
        Scope::CurrentFolder => concat("folder:", launch_dir_name(app).as_str()),
        Scope::Project => concat("project:", project_name(app).as_str()),
        Scope::All => "all folders".to_owned(),
    };
    let mode = match app.search_mode {
        SearchMode::NameOnly => "name",
        SearchMode::NameAndContent => "name+content",
    };
    let dim = Style::plain().add_modifier(Modifier::dim());
    let mut spans: Vec<Span> = Vec::new();
    spans.push(
        Span::styled(
            " snapback ".to_owned(),
            Style::plain().fg(Color::Black).bg(Color::Cyan).add_modifier(Modifier::bold()),
        ),
    );
    spans.push(Span::raw("  "));
    spans.push(Span::styled(scope, Style::plain().fg(Color::Green)));
    spans.push(Span::raw(HEADER_SEPARATOR));
    spans.push(Span::raw("search: "));
    spans.push(Span::styled(mode.to_owned(), Style::plain().fg(Color::Yellow)));
    spans.push(Span::raw(HEADER_SEPARATOR));
    let mut counter = concat3(
        decimal(app.counts.visible as u64).as_str(),
        " / ",
        decimal(app.counts.total as u64).as_str(),
    );
    counter.append(" sessions");
    spans.push(Span::styled(counter, dim));
    if app.counts.hidden > 0 {
        spans.push(Span::raw(HEADER_SEPARATOR));
        spans.push(
            Span::styled(concat(decimal(app.counts.hidden as u64).as_str(), " hidden"), dim),
        );
    }
    assert(span_views(spans@) =~= header_spans(*app));
    let version = Span::styled(version_label(&app.build), dim);
    let mut right = Paragraph::of_line(Line::from_span(version), area);
    right.alignment = Alignment::Right;
    let mut draws: Vec<Draw> = Vec::new();
    draws.push(Draw::Text(Paragraph::of_line(Line::from_spans(spans), area)));
    draws.push(Draw::Text(right));
    assert(draw_views(draws@) =~= header_draws(*app, area));
    draws
}

/// The cursor of the search line.
pub const SEARCH_CURSOR: &'static str = "\u{258f}";

/// The cursor of the search line in the hidden phase of the pulse.
pub const SEARCH_CURSOR_HIDDEN: &'static str = " ";

/// The search line: the query, and a cursor that pulses with the badges.
pub open spec fn search_draws(app: App, area: Rect) -> Seq<DrawView> {
    let cursor = if blink_visible(app.tick) {
        SEARCH_CURSOR@
    } else {
        SEARCH_CURSOR_HIDDEN@
    };
    seq![
        DrawView::Text(
            plain_paragraph(
                seq![
                    plain_line(
                        seq![
                            styled_span("search: "@, Style::plain().fg(Color::Cyan)),
                            raw_span(app.query@),
                            raw_span(cursor),
                        ],
                    ),
                ],
                area,
            ),
        ),
    ]
}

/// Draw the search line.
pub fn render_search(app: &App, area: Rect) -> (draws: Vec<Draw>)
    ensures
        draw_views(draws@) == search_draws(*app, area),
{
    let cursor = if blink_visible(app.tick) {
        SEARCH_CURSOR
    } else {
        SEARCH_CURSOR_HIDDEN
    };
    let mut spans: Vec<Span> = Vec::new();
    spans.push(Span::styled("search: ".to_owned(), Style::plain().fg(Color::Cyan)));
    spans.push(Span::raw(app.query.as_str()));
    spans.push(Span::raw(cursor));
    assert(span_views(spans@) =~= seq![
        styled_span("search: "@, Style::plain().fg(Color::Cyan)),
        raw_span(app.query@),
        raw_span(cursor@),
    ]);
    let mut draws: Vec<Draw> = Vec::new();
    draws.push(Draw::Text(Paragraph::of_line(Line::from_spans(spans), area)));
    assert(draw_views(draws@) =~= search_draws(*app, area));
    draws
}

/// The search line holds its columns: both of the cursor's phases are one
/// character, and nothing before the cursor changes with the pulse.
pub proof fn lemma_the_search_line_holds_its_columns()
    ensures
        SEARCH_CURSOR@.len() == 1,
        SEARCH_CURSOR_HIDDEN@.len() == 1,
{
    reveal_strlit("\u{258f}");
    reveal_strlit(" ");
}

/// The keys of a draft that starts a background agent.
pub const BG_DRAFT_HINT: &'static str = "Enter start in background · Ctrl-O run interactively · Ctrl-J newline (or Alt+Enter) · Esc cancel";

/// The keys of a draft that replies to a session.
pub const REPLY_HINT: &'static str = "Enter send · Ctrl-J newline (or Alt+Enter) · paste keeps newlines · Esc cancel";

/// The keys of an open draft.
pub fn compose_hint(target: &ComposeTarget) -> (hint: &'static str)
    ensures
        hint@ == (match target {
            ComposeTarget::Reply { .. } => REPLY_HINT@,
            ComposeTarget::NewBackgroundAgent { .. } => BG_DRAFT_HINT@,
        }),
{
    match target {
        ComposeTarget::Reply { .. } => REPLY_HINT,
        ComposeTarget::NewBackgroundAgent { .. } => BG_DRAFT_HINT,
    }
}

/// The keys of the board.
pub const BOARD_KEYS: &'static str = "↑↓/jk move · ←/→ fold/expand · Enter resume · ^F fork · ^N new · ^R reply · ^K stop · ^X hide/del · type to search · Tab name/content · S-↑↓ match · ^A scope · ^/ preview · PgUp/PgDn·^U/^D·Home/End·wheel scroll · q/Esc quit";

/// Whether the selected session was hidden.
pub open spec fn selection_hidden(app: App) -> bool {
    match app.selected {
        Some(id) => app.hidden(id@),
        None => false,
    }
}

/// The help line: the keys of a pending chord, else a status in one line, else
/// the keys of the open draft, else those of the board.
pub open spec fn help_span(app: App) -> SpanView {
    if app.pending_chord {
        styled_span(
            chord_text(selection_hidden(app)),
            Style::plain().fg(Color::Cyan).add_modifier(Modifier::bold()),
        )
    } else {
        match app.status {
            Some(status) => styled_span(
                joined(words(status@), " "@),
                Style::plain().fg(Color::Yellow).add_modifier(Modifier::bold()),
            ),
            None => match app.compose {
                Some(compose) => styled_span(
                    match compose.target {
                        ComposeTarget::Reply { .. } => REPLY_HINT@,
                        ComposeTarget::NewBackgroundAgent { .. } => BG_DRAFT_HINT@,
                    },
                    Style::plain().add_modifier(Modifier::dim()),
                ),
                None => styled_span(BOARD_KEYS@, Style::plain().add_modifier(Modifier::dim())),
            },
        }
    }
}

/// The help line.
pub open spec fn help_draws(app: App, area: Rect) -> Seq<DrawView> {
    seq![DrawView::Text(plain_paragraph(seq![plain_line(seq![help_span(app)])], area))]
}

/// Draw the help line.
pub fn render_help(app: &App, area: Rect) -> (draws: Vec<Draw>)
    ensures
        draw_views(draws@) == help_draws(*app, area),
{
    let span = if app.pending_chord {
        let selected_hidden = match &app.selected {
            Some(id) => app.is_hidden(id.as_str()),
            None => false,
        };
        Span::styled(
            chord_hint(selected_hidden),
            Style::plain().fg(Color::Cyan).add_modifier(Modifier::bold()),
        )
    } else if let Some(status) = &app.status {
        let parts = split_words(status.as_str());
        Span::styled(
            join(&parts, " "),
            Style::plain().fg(Color::Yellow).add_modifier(Modifier::bold()),
        )
    } else if let Some(compose) = &app.compose {
        Span::styled(
            compose_hint(&compose.target).to_owned(),
            Style::plain().add_modifier(Modifier::dim()),
        )
    } else {
        Span::styled(BOARD_KEYS.to_owned(), Style::plain().add_modifier(Modifier::dim()))
    };
    let mut draws: Vec<Draw> = Vec::new();
    draws.push(Draw::Text(Paragraph::of_line(Line::from_span(span), area)));
    assert(draw_views(draws@) =~= help_draws(*app, area));
    draws
}

/// The keys of a reply fit a usual terminal.
pub proof fn lemma_the_reply_hint_fits()
    ensures
        REPLY_HINT@.len() <= TERMINAL_COLUMNS,
{
    reveal_strlit(
        "Enter send · Ctrl-J newline (or Alt+Enter) · paste keeps newlines · Esc cancel",
    );
}

/// Words with a space between each two hold no other whitespace.
proof fn lemma_joined_words_are_flat(parts: Seq<Seq<char>>)
    requires
        forall|k: int, i: int|
            0 <= k < parts.len() && 0 <= i < parts[k].len() ==> !is_white(#[trigger] parts[k][i]),
    ensures
        forall|i: int|
            0 <= i < joined(parts, " "@).len() ==> !is_white(#[trigger] joined(parts, " "@)[i])
                || joined(parts, " "@)[i] == ' ',
    decreases parts.len(),
{
    reveal_strlit(" ");
    if parts.len() > 1 {
        let fewer = parts.drop_last();
        assert forall|k: int, i: int|
            0 <= k < fewer.len() && 0 <= i < fewer[k].len() implies !is_white(
            #[trigger] fewer[k][i],
        ) by {
            assert(!is_white(parts[k][i]));
        }
        lemma_joined_words_are_flat(fewer);
        let all = joined(parts, " "@);
        let n = joined(fewer, " "@).len() as int;
        assert forall|i: int| 0 <= i < all.len() implies !is_white(#[trigger] all[i]) || all[i]
            == ' ' by {
            if i < n {
                assert(all[i] == joined(fewer, " "@)[i]);
            } else if i > n {
                assert(all[i] == parts[parts.len() - 1][i - n - 1]);
            }
        }
    } else if parts.len() == 1 {
        assert(joined(parts, " "@) == parts[0]);
    }
}

/// A status takes one line, whatever it holds: no line feed is left in it, and no
/// other whitespace than single spaces between its words.
pub proof fn lemma_a_status_is_one_line(app: App)
    requires
        app.status is Some,
        !app.pending_chord,
    ensures
        ({
            let text = help_span(app).text;
            forall|i: int|
                0 <= i < text.len() ==> !is_white(#[trigger] text[i]) || text[i] == ' '
        }),
{
    let status = app.status.unwrap()@;
    lemma_words_are_words(status);
    lemma_joined_words_are_flat(words(status));
}

/// The help line goes by rank: a pending chord hides a status, a status hides the keys
/// of a draft, and what is hidden changes nothing. Only where there is none of them do
/// the board's keys stand there, and nothing else on the board changes the line.
pub proof fn lemma_the_help_line_goes_by_rank(
    app: App,
    status: Option<String>,
    compose: Option<ComposeState>,
    tick: u64,
)
    ensures
        ({
            let below = (App { status, compose, tick, ..app });
            let drafted = (App { compose, tick, ..app });
            let later = (App { tick, ..app });
            &&& app.pending_chord ==> help_span(app) == help_span(below)
            &&& (!app.pending_chord && app.status is Some) ==> help_span(app) == help_span(drafted)
            &&& help_span(app) == help_span(later)
        }),
        !app.pending_chord && app.status is None ==> (help_span(app).text == BOARD_KEYS@ <==>
            app.compose is None),
        app.pending_chord ==> help_span(app).style.fg == Some(Color::Cyan),
        !app.pending_chord && app.status is Some ==> help_span(app).style.fg == Some(
            Color::Yellow,
        ),
        !app.pending_chord && app.status is None ==> help_span(app).style.fg is None,
{
    reveal_strlit(
        "Enter send · Ctrl-J newline (or Alt+Enter) · paste keeps newlines · Esc cancel",
    );
    reveal_strlit(
        "Enter start in background · Ctrl-O run interactively · Ctrl-J newline (or Alt+Enter) · Esc cancel",
    );
    reveal_strlit(
        "↑↓/jk move · ←/→ fold/expand · Enter resume · ^F fork · ^N new · ^R reply · ^K stop · ^X hide/del · type to search · Tab name/content · S-↑↓ match · ^A scope · ^/ preview · PgUp/PgDn·^U/^D·Home/End·wheel scroll · q/Esc quit",
    );
    assert(BOARD_KEYS@[0] != REPLY_HINT@[0] && BOARD_KEYS@[0] != BG_DRAFT_HINT@[0]);
}


/// The search line reads as the query, behind its word and before the cursor; and with
/// the tick nothing but the cursor changes.
pub proof fn lemma_the_search_line_reads_as_the_query(app: App, area: Rect, tick: u64)
    ensures
        ({
            let later = (App { tick, ..app });
            let line = search_draws(app, area)[0]->Text_0.lines[0];
            let other = search_draws(later, area)[0]->Text_0.lines[0];
            let text = line_text(line.spans);
            &&& text.drop_last() == "search: "@ + app.query@
            &&& text.last() == (if blink_visible(app.tick) {
                '\u{258f}'
            } else {
                ' '
            })
            &&& line_text(other.spans).drop_last() == text.drop_last()
            &&& line.spans.drop_last() == other.spans.drop_last()
        }),
{
    reveal_strlit("\u{258f}");
    reveal_strlit(" ");
    let none: Seq<SpanView> = seq![];
    let later = App { tick, ..app };
    let spans = search_draws(app, area)[0]->Text_0.lines[0].spans;
    let other = search_draws(later, area)[0]->Text_0.lines[0].spans;
    let start = seq![spans[0]].push(spans[1]);
    assert(spans =~= start.push(spans[2]));
    assert(other =~= start.push(other[2]));
    lemma_a_line_reads_its_spans(none, spans[0]);
    lemma_a_line_reads_its_spans(seq![spans[0]], spans[1]);
    lemma_a_line_reads_its_spans(start, spans[2]);
    lemma_a_line_reads_its_spans(start, other[2]);
    assert(line_text(spans).drop_last() =~= "search: "@ + app.query@);
    assert(line_text(other).drop_last() =~= "search: "@ + app.query@);
    assert(spans.drop_last() =~= start);
    assert(other.drop_last() =~= start);
}

/// The header reads from the scope on: the scope, the search mode and the counts, with
/// a separator between each two; and a count of hidden sessions is added behind them
/// exactly where some are hidden, and changes nothing before it.
pub proof fn lemma_the_header_reads_its_board(app: App)
    ensures
        ({
            let shown = digits(app.counts.visible as nat);
            let total = digits(app.counts.total as nat);
            let always = " snapback "@ + "  "@ + scope_text(app) + HEADER_SEPARATOR@ + "search: "@
                + mode_text(app.search_mode) + HEADER_SEPARATOR@ + (shown + " / "@ + total
                + " sessions"@);
            line_text(header_spans(app)) == if app.counts.hidden == 0 {
                always
            } else {
                always + HEADER_SEPARATOR@ + (digits(app.counts.hidden as nat) + " hidden"@)
            }
        }),
        value_of(digits(app.counts.visible as nat)) == app.counts.visible,
        value_of(digits(app.counts.total as nat)) == app.counts.total,
        value_of(digits(app.counts.hidden as nat)) == app.counts.hidden,
{
    lemma_a_number_reads_back(app.counts.visible as nat);
    lemma_a_number_reads_back(app.counts.total as nat);
    lemma_a_number_reads_back(app.counts.hidden as nat);
    let spans = header_spans(app);
    let none: Seq<SpanView> = seq![];
    assert(spans.take(0) =~= none);
    assert(line_text(none) =~= seq![]);
    lemma_one_span_more(spans, 1);
    lemma_one_span_more(spans, 2);
    lemma_one_span_more(spans, 3);
    lemma_one_span_more(spans, 4);
    lemma_one_span_more(spans, 5);
    lemma_one_span_more(spans, 6);
    lemma_one_span_more(spans, 7);
    lemma_one_span_more(spans, 8);
    assert(line_text(spans.take(1)) =~= " snapback "@);
    if app.counts.hidden > 0 {
        lemma_one_span_more(spans, 9);
        lemma_one_span_more(spans, 10);
        assert(spans.take(10) =~= spans);
    } else {
        assert(spans.take(8) =~= spans);
    }
}

/// The first `n` spans read as those before the last of them, and then as that one.
proof fn lemma_one_span_more(spans: Seq<SpanView>, n: int)
    requires
        0 < n <= spans.len(),
    ensures
        line_text(spans.take(n)) == line_text(spans.take(n - 1)) + spans[n - 1].text,
{
    assert(spans.take(n) =~= spans.take(n - 1).push(spans[n - 1]));
    lemma_a_line_reads_its_spans(spans.take(n - 1), spans[n - 1]);
}

/// The header tells scopes apart by their first letter, and names a folder or a project
/// whole.
pub proof fn lemma_the_header_names_its_scope(app: App, other: App)
    ensures
        scope_text(app).len() > 0,
        scope_text(app)[0] == scope_text(other)[0] <==> app.scope == other.scope,
        mode_text(app.search_mode) == mode_text(other.search_mode) <==> app.search_mode
            == other.search_mode,
        app.scope == Scope::CurrentFolder ==> dir_name(app.launch_dir@).is_suffix_of(
            scope_text(app),
        ),
        app.scope == Scope::Project ==> project_text(app).is_suffix_of(scope_text(app)),
{
    reveal_strlit("folder:");
    reveal_strlit("project:");
    reveal_strlit("all folders");
    reveal_strlit("name");
    reveal_strlit("name+content");
    assert("name"@.len() != "name+content"@.len());
    let text = scope_text(app);
    let folder = dir_name(app.launch_dir@);
    let project = project_text(app);
    if app.scope == Scope::CurrentFolder {
        assert(text.subrange(text.len() - folder.len(), text.len() as int) =~= folder);
    }
    if app.scope == Scope::Project {
        assert(text.subrange(text.len() - project.len(), text.len() as int) =~= project);
    }
}

/// The version stands on the right of the header's row, and the state of the board on
/// its left: neither takes the other's place.
pub proof fn lemma_the_version_stands_on_the_right(app: App, area: Rect)
    ensures
        header_draws(app, area).len() == 2,
        header_draws(app, area)[0] matches DrawView::Text(text) && text.area == area
            && text.alignment == Alignment::Left && text.lines.len() == 1 && text.lines[0].spans
            == header_spans(app),
        header_draws(app, area)[1] matches DrawView::Text(text) && text.area == area
            && text.alignment == Alignment::Right && text.lines.len() == 1 && line_text(
            text.lines[0].spans,
        ) == version_text(app.build.debug_build, app.build.git_hash@, app.build.dirty),
{
    let none: Seq<SpanView> = seq![];
    let text = header_draws(app, area)[1]->Text_0;
    lemma_a_line_reads_its_spans(none, text.lines[0].spans[0]);
    assert(text.lines[0].spans =~= seq![text.lines[0].spans[0]]);
}

} // verus!
