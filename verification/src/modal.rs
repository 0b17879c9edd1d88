//! The boxes that lie on top of the board.

use vstd::prelude::*;
use crate::app::{App, Modal, ModalChoice, ModalLayout};
use crate::draw::{draw_views, titled, Draw, DrawView, Frame, Paragraph, ParagraphView};
use crate::geometry::{
    capped_sum, centered, centered_rect, least, lemma_centered_stays_inside, on_grid, Rect,
};
use crate::labels::{
    lemma_words_are_words, lemma_wrapped_lines_fit, lemma_wrapping_keeps_the_words, wrap_message,
    wrapped,
};
use crate::style::{
    lemma_a_line_reads_its_spans, line_text, line_views, plain_line, raw_span, span_views,
    styled_span, Alignment, Color, Line, LineView, Modifier, Span, SpanView, Style,
};
use crate::text::{concat, concat3, joined, texts, words};

verus! {

broadcast use {
    crate::draw::lemma_draw_views_push,
    crate::style::lemma_line_views_push,
    crate::style::lemma_span_views_push,
};

/// How wide a modal is.
pub const MODAL_WIDTH: u16 = 62;

/// How wide its text is, inside its border.
pub const MODAL_TEXT_WIDTH: u16 = MODAL_WIDTH - 2;

/// How many rows a modal of buttons has besides its message and its border.
pub const MODAL_ROW_CHROME_ROWS: u16 = 4;

/// How many rows a modal of rows has besides its message, its choices and its
/// border.
pub const MODAL_LIST_CHROME_ROWS: u16 = 3;

/// The footer of a modal of buttons.
pub const ROW_FOOTER: &'static str = "\u{2190}/\u{2192} choose \u{b7} Enter confirm \u{b7} Esc cancel";

/// The footer of a modal of rows.
pub const LIST_FOOTER: &'static str = "↑/↓ choose · Enter draft · ^O interactive · Esc cancel";

/// The style of a button.
pub open spec fn button_style(selected: bool) -> Style {
    let style = Style::plain().add_modifier(Modifier::bold());
    if selected {
        style.add_modifier(Modifier::reversed())
    } else {
        style
    }
}

/// The first `n` choices as buttons, with a gap between each two.
pub open spec fn button_spans(choices: Seq<ModalChoice>, n: nat, selected: int) -> Seq<SpanView>
    decreases n,
{
    if n == 0 {
        seq![]
    } else {
        let i = n - 1;
        let before = button_spans(choices, i as nat, selected);
        let gap = if i > 0 {
            seq![raw_span("    "@)]
        } else {
            seq![]
        };
        before + gap + seq![
            styled_span(" "@ + choices[i].label@ + " "@, button_style(i == selected)),
        ]
    }
}

/// The choices as buttons.
pub fn modal_button_row(choices: &Vec<ModalChoice>, selected: usize) -> (spans: Vec<Span>)
    ensures
        span_views(spans@) == button_spans(choices@, choices@.len(), selected as int),
{
    let mut spans: Vec<Span> = Vec::new();
    let mut i: usize = 0;
    assert(span_views(spans@) =~= seq![]);
    while i < choices.len()
        invariant
            i <= choices@.len(),
            span_views(spans@) == button_spans(choices@, i as nat, selected as int),
        decreases choices@.len() - i,
    {
        let ghost before = span_views(spans@);
        if i > 0 {
            spans.push(Span::raw("    "));
        }
        let mut style = Style::plain().add_modifier(Modifier::bold());
        if i == selected {
            style = style.add_modifier(Modifier::reversed());
        }
        spans.push(Span::styled(concat3(" ", choices[i].label.as_str(), " "), style));
        assert(span_views(spans@) =~= button_spans(choices@, (i + 1) as nat, selected as int));
        i += 1;
    }
    spans
}

/// A choice as a row: marked where it is selected, with its description behind
/// it, where it has one.
pub open spec fn choice_line(
    label: Seq<char>,
    description: Option<Seq<char>>,
    selected: bool,
) -> LineView {
    let head = if selected {
        seq![
            raw_span("› "@),
            styled_span(
                label,
                Style::plain().add_modifier(Modifier::reversed()).add_modifier(Modifier::bold()),
            ),
        ]
    } else {
        seq![raw_span("  "@), styled_span(label, Style::plain())]
    };
    match description {
        Some(text) => plain_line(
            head + seq![
                raw_span("  "@),
                styled_span(text, Style::plain().add_modifier(Modifier::dim())),
            ],
        ),
        None => plain_line(head),
    }
}

/// A choice as a row.
pub fn modal_list_row(label: &str, description: Option<&str>, selected: bool) -> (line: Line)
    ensures
        line@ == choice_line(
            label@,
            match description {
                Some(text) => Some(text@),
                None => None,
            },
            selected,
        ),
{
    let mut spans: Vec<Span> = Vec::new();
    if selected {
        spans.push(Span::raw("› "));
        spans.push(
            Span::styled(
                label.to_owned(),
                Style::plain().add_modifier(Modifier::reversed()).add_modifier(Modifier::bold()),
            ),
        );
    } else {
        spans.push(Span::raw("  "));
        spans.push(Span::styled(label.to_owned(), Style::plain()));
    }
    let ghost head = span_views(spans@);
    if let Some(text) = description {
        spans.push(Span::raw("  "));
        spans.push(Span::styled(text.to_owned(), Style::plain().add_modifier(Modifier::dim())));
        assert(span_views(spans@) =~= head + seq![
            raw_span("  "@),
            styled_span(text@, Style::plain().add_modifier(Modifier::dim())),
        ]);
    }
    assert(head =~= (if selected {
        seq![
            raw_span("› "@),
            styled_span(
                label@,
                Style::plain().add_modifier(Modifier::reversed()).add_modifier(Modifier::bold()),
            ),
        ]
    } else {
        seq![raw_span("  "@), styled_span(label@, Style::plain())]
    }));
    Line::from_spans(spans)
}

/// The description of a choice, where it has one.
pub open spec fn description_of(choice: ModalChoice) -> Option<Seq<char>> {
    match choice.description {
        Some(text) => Some(text@),
        None => None,
    }
}

/// The choices as rows.
pub open spec fn choice_lines(choices: Seq<ModalChoice>, selected: int) -> Seq<LineView> {
    Seq::new(
        choices.len(),
        |i: int| choice_line(choices[i].label@, description_of(choices[i]), i == selected),
    )
}

/// The color of a modal's message.
pub open spec fn accent(layout: ModalLayout) -> Color {
    match layout {
        ModalLayout::Row => Color::Yellow,
        ModalLayout::List => Color::Cyan,
    }
}

/// The message of a modal, wrapped to its width.
pub open spec fn message_texts(modal: Modal) -> Seq<Seq<char>> {
    wrapped(words(modal.message@), MODAL_TEXT_WIDTH as int)
}

/// The lines of a modal: its message, its choices and its footer.
pub open spec fn modal_lines(modal: Modal) -> Seq<LineView> {
    let style = Style::plain().fg(accent(modal.layout)).add_modifier(Modifier::bold());
    let message = message_texts(modal).map_values(
        |text: Seq<char>| plain_line(seq![styled_span(text, style)]),
    );
    let choices = match modal.layout {
        ModalLayout::Row => seq![
            plain_line(button_spans(modal.choices@, modal.choices@.len(), modal.selected as int)),
        ],
        ModalLayout::List => choice_lines(modal.choices@, modal.selected as int),
    };
    let footer = match modal.layout {
        ModalLayout::Row => ROW_FOOTER@,
        ModalLayout::List => LIST_FOOTER@,
    };
    message.push(plain_line(seq![])) + choices.push(plain_line(seq![])).push(
        plain_line(seq![styled_span(footer, Style::plain().add_modifier(Modifier::dim()))]),
    )
}

/// A number of rows, held at the largest `u16`.
fn capped_count(rows: usize) -> (out: u16)
    ensures
        out == least(rows as int, u16::MAX as int),
{
    if rows > u16::MAX as usize {
        u16::MAX
    } else {
        rows as u16
    }
}

/// How many rows a modal asks for: those of its message, its choices, its chrome
/// and its border, held at the largest `u16`.
pub open spec fn modal_height(modal: Modal) -> int {
    let message = least(message_texts(modal).len() as int, u16::MAX as int);
    match modal.layout {
        ModalLayout::Row => capped_sum(capped_sum(message, MODAL_ROW_CHROME_ROWS as int), 2),
        ModalLayout::List => capped_sum(
            capped_sum(
                capped_sum(least(modal.choices@.len() as int, u16::MAX as int), message),
                MODAL_LIST_CHROME_ROWS as int,
            ),
            2,
        ),
    }
}

/// A modal grows with its lines: the rows it asks for are those of its lines and of
/// its border, held at the largest `u16`.
pub proof fn lemma_a_modal_holds_its_lines(modal: Modal)
    ensures
        modal_height(modal) == least(
            (modal_lines(modal).len() + 2) as int,
            u16::MAX as int,
        ),
{
}

/// A box with a title around lines, on top of what lies beneath it.
pub open spec fn overlay(
    area: Rect,
    title: Seq<char>,
    lines: Seq<LineView>,
    alignment: Alignment,
) -> Seq<DrawView> {
    seq![
        DrawView::Clear(area),
        DrawView::Text(
            ParagraphView {
                area,
                lines,
                style: Style::plain(),
                alignment,
                frame: Some(titled(title)),
                wrap: false,
                scroll: 0,
            },
        ),
    ]
}

/// Draw a box with a title around lines.
fn build_overlay(area: Rect, title: &str, lines: Vec<Line>, alignment: Alignment) -> (draws: Vec<
    Draw,
>)
    ensures
        draw_views(draws@) == overlay(area, title@, line_views(lines@), alignment),
{
    let ghost views = line_views(lines@);
    let mut draws: Vec<Draw> = Vec::new();
    draws.push(Draw::Clear(area));
    draws.push(
        Draw::Text(
            Paragraph {
                area,
                lines,
                style: Style::plain(),
                alignment,
                frame: Some(Frame::titled(title)),
                wrap: false,
                scroll: 0,
            },
        ),
    );
    assert(draw_views(draws@) =~= overlay(area, title@, views, alignment));
    draws
}

/// A modal in the middle of `screen`.
pub open spec fn modal_draws(modal: Modal, screen: Rect) -> Seq<DrawView> {
    overlay(
        centered(screen, MODAL_WIDTH, modal_height(modal) as u16),
        " "@ + modal.title@ + " "@,
        modal_lines(modal),
        match modal.layout {
            ModalLayout::Row => Alignment::Center,
            ModalLayout::List => Alignment::Left,
        },
    )
}

/// Draw a modal in the middle of `screen`.
pub fn render_modal(modal: &Modal, screen: Rect) -> (draws: Vec<Draw>)
    requires
        on_grid(screen),
    ensures
        draw_views(draws@) == modal_draws(*modal, screen),
{
    let (color, footer) = match modal.layout {
        ModalLayout::Row => (Color::Yellow, ROW_FOOTER),
        ModalLayout::List => (Color::Cyan, LIST_FOOTER),
    };
    let style = Style::plain().fg(color).add_modifier(Modifier::bold());
    let message = wrap_message(modal.message.as_str(), MODAL_TEXT_WIDTH);
    let message_rows: u16 = capped_count(message.len());
    let ghost wanted = message_texts(*modal).map_values(
        |text: Seq<char>| plain_line(seq![styled_span(text, style)]),
    );
    let mut lines: Vec<Line> = Vec::new();
    let mut i: usize = 0;
    assert(line_views(lines@) =~= wanted.take(0));
    while i < message.len()
        invariant
            i <= message@.len(),
            texts(message@) == message_texts(*modal),
            wanted == message_texts(*modal).map_values(
                |text: Seq<char>| plain_line(seq![styled_span(text, style)]),
            ),
            line_views(lines@) == wanted.take(i as int),
        decreases message@.len() - i,
    {
        assert(message_texts(*modal)[i as int] == message@[i as int]@);
        lines.push(Line::from_span(Span::styled(message[i].clone(), style)));
        assert(wanted.take(i + 1) =~= wanted.take(i as int).push(wanted[i as int]));
        i += 1;
    }
    assert(wanted.take(i as int) =~= wanted);
    assert(message_texts(*modal).len() == message@.len());
    lines.push(Line::blank());
    let ghost above = line_views(lines@);
    let height: u16 = match modal.layout {
        ModalLayout::Row => {
            lines.push(Line::from_spans(modal_button_row(&modal.choices, modal.selected)));
            message_rows.saturating_add(MODAL_ROW_CHROME_ROWS).saturating_add(2)
        },
        ModalLayout::List => {
            let ghost rows = choice_lines(modal.choices@, modal.selected as int);
            let mut k: usize = 0;
            assert(line_views(lines@) =~= above + rows.take(0));
            while k < modal.choices.len()
                invariant
                    k <= modal.choices@.len(),
                    rows == choice_lines(modal.choices@, modal.selected as int),
                    line_views(lines@) == above + rows.take(k as int),
                decreases modal.choices@.len() - k,
            {
                let choice = &modal.choices[k];
                let description = match &choice.description {
                    Some(text) => Some(text.as_str()),
                    None => None,
                };
                lines.push(
                    modal_list_row(choice.label.as_str(), description, k == modal.selected),
                );
                assert(line_views(lines@).last() == rows[k as int]);
                assert(line_views(lines@) =~= above + rows.take(k + 1));
                k += 1;
            }
            assert(rows.take(k as int) =~= rows);
            let entries: u16 = capped_count(modal.choices.len());
            entries.saturating_add(message_rows).saturating_add(
                MODAL_LIST_CHROME_ROWS,
            ).saturating_add(2)
        },
    };
    lines.push(Line::blank());
    lines.push(
        Line::from_span(
            Span::styled(footer.to_owned(), Style::plain().add_modifier(Modifier::dim())),
        ),
    );
    assert(line_views(lines@) =~= modal_lines(*modal));
    proof {
        lemma_centered_stays_inside(screen, MODAL_WIDTH, height);
    }
    let area = centered_rect(screen, MODAL_WIDTH, height);
    let alignment = match modal.layout {
        ModalLayout::Row => Alignment::Center,
        ModalLayout::List => Alignment::Left,
    };
    let title = concat3(" ", modal.title.as_str(), " ");
    build_overlay(area, title.as_str(), lines, alignment)
}

/// How wide a confirmation is.
pub const CONFIRM_WIDTH: u16 = 64;

/// How many rows a confirmation has.
pub const CONFIRM_HEIGHT: u16 = 8;

/// The lines of a confirmation: what is the case, what is asked, what that costs,
/// and the keys.
pub open spec fn confirm_lines(headline: Seq<char>, question: Seq<char>, keys: Seq<char>) -> Seq<
    LineView,
> {
    let dim = Style::plain().add_modifier(Modifier::dim());
    seq![
        plain_line(
            seq![
                styled_span(
                    headline,
                    Style::plain().fg(Color::Yellow).add_modifier(Modifier::bold()),
                ),
            ],
        ),
        plain_line(seq![]),
        plain_line(seq![raw_span(question)]),
        plain_line(
            seq![styled_span("(ends the live agent; its conversation is kept)"@, dim)],
        ),
        plain_line(seq![]),
        plain_line(seq![styled_span(keys, dim)]),
    ]
}

/// The lines of a confirmation.
fn build_confirm(headline: &str, question: &str, keys: &str) -> (lines: Vec<Line>)
    ensures
        line_views(lines@) == confirm_lines(headline@, question@, keys@),
{
    let dim = Style::plain().add_modifier(Modifier::dim());
    let mut lines: Vec<Line> = Vec::new();
    lines.push(
        Line::from_span(
            Span::styled(
                headline.to_owned(),
                Style::plain().fg(Color::Yellow).add_modifier(Modifier::bold()),
            ),
        ),
    );
    lines.push(Line::blank());
    lines.push(Line::from_span(Span::raw(question)));
    lines.push(
        Line::from_span(
            Span::styled("(ends the live agent; its conversation is kept)".to_owned(), dim),
        ),
    );
    lines.push(Line::blank());
    lines.push(Line::from_span(Span::styled(keys.to_owned(), dim)));
    assert(line_views(lines@) =~= confirm_lines(headline@, question@, keys@));
    lines
}

/// The question whether to stop a waiting agent for a reply to its session.
pub open spec fn stop_confirm_draws(app: App, screen: Rect) -> Seq<DrawView> {
    match app.pending_stop {
        Some(pending) => overlay(
            centered(screen, CONFIRM_WIDTH, CONFIRM_HEIGHT),
            " stop the waiting agent? "@,
            confirm_lines(
                "This session is a waiting agent."@,
                "Stop it and reply in place?  —  "@ + app.name_of(pending.session_id@),
                "Enter  stop & reply    \u{b7}    Esc  cancel"@,
            ),
            Alignment::Center,
        ),
        None => seq![],
    }
}

/// Draw the question whether to stop a waiting agent.
pub fn render_stop_confirm(app: &App, screen: Rect) -> (draws: Vec<Draw>)
    requires
        on_grid(screen),
    ensures
        draw_views(draws@) == stop_confirm_draws(*app, screen),
{
    let pending = match &app.pending_stop {
        Some(pending) => pending,
        None => {
            let draws: Vec<Draw> = Vec::new();
            assert(draw_views(draws@) =~= seq![]);
            return draws;
        },
    };
    let label = app.session_name(pending.session_id.as_str());
    let question = concat("Stop it and reply in place?  —  ", label);
    proof {
        lemma_centered_stays_inside(screen, CONFIRM_WIDTH, CONFIRM_HEIGHT);
    }
    let area = centered_rect(screen, CONFIRM_WIDTH, CONFIRM_HEIGHT);
    let lines = build_confirm(
        "This session is a waiting agent.",
        question.as_str(),
        "Enter  stop & reply    \u{b7}    Esc  cancel",
    );
    build_overlay(area, " stop the waiting agent? ", lines, Alignment::Center)
}

/// The question whether to stop a running agent.
pub open spec fn interrupt_confirm_draws(app: App, screen: Rect) -> Seq<DrawView> {
    match app.pending_interrupt {
        Some(pending) => overlay(
            centered(screen, CONFIRM_WIDTH, CONFIRM_HEIGHT),
            " stop this agent? "@,
            confirm_lines(
                "This session is running as an agent."@,
                "Stop it?  —  "@ + app.name_of(pending.session_id@),
                "Enter  stop    \u{b7}    Esc  cancel"@,
            ),
            Alignment::Center,
        ),
        None => seq![],
    }
}

/// Draw the question whether to stop a running agent.
pub fn render_interrupt_confirm(app: &App, screen: Rect) -> (draws: Vec<Draw>)
    requires
        on_grid(screen),
    ensures
        draw_views(draws@) == interrupt_confirm_draws(*app, screen),
{
    let pending = match &app.pending_interrupt {
        Some(pending) => pending,
        None => {
            let draws: Vec<Draw> = Vec::new();
            assert(draw_views(draws@) =~= seq![]);
            return draws;
        },
    };
    let label = app.session_name(pending.session_id.as_str());
    let question = concat("Stop it?  —  ", label);
    proof {
        lemma_centered_stays_inside(screen, CONFIRM_WIDTH, CONFIRM_HEIGHT);
    }
    let area = centered_rect(screen, CONFIRM_WIDTH, CONFIRM_HEIGHT);
    let lines = build_confirm(
        "This session is running as an agent.",
        question.as_str(),
        "Enter  stop    \u{b7}    Esc  cancel",
    );
    build_overlay(area, " stop this agent? ", lines, Alignment::Center)
}

/// A confirmation fits its box: its lines and its border take the rows it has.
pub proof fn lemma_a_confirmation_fits_its_box(
    headline: Seq<char>,
    question: Seq<char>,
    keys: Seq<char>,
)
    ensures
        confirm_lines(headline, question, keys).len() + 2 == CONFIRM_HEIGHT,
{
}

/// A row of buttons reads as its labels, each with a space on either side, and four
/// spaces between each two.
pub proof fn lemma_buttons_read_as_their_labels(
    choices: Seq<ModalChoice>,
    n: nat,
    selected: int,
)
    requires
        n <= choices.len(),
    ensures
        line_text(button_spans(choices, n, selected)) == joined(
            Seq::new(n, |i: int| " "@ + choices[i].label@ + " "@),
            "    "@,
        ),
    decreases n,
{
    let labels = Seq::new(n, |i: int| " "@ + choices[i].label@ + " "@);
    let spans = button_spans(choices, n, selected);
    let none: Seq<SpanView> = seq![];
    if n > 0 {
        let before = button_spans(choices, (n - 1) as nat, selected);
        let fewer = Seq::new((n - 1) as nat, |i: int| " "@ + choices[i].label@ + " "@);
        lemma_buttons_read_as_their_labels(choices, (n - 1) as nat, selected);
        assert(labels.drop_last() =~= fewer);
        let button = spans.last();
        assert(button.text == labels.last());
        if n == 1 {
            assert(spans =~= seq![button]);
            lemma_a_line_reads_its_spans(none, button);
            assert(joined(labels, "    "@) == labels[0]);
        } else {
            let gap = raw_span("    "@);
            assert(spans =~= before.push(gap).push(button));
            lemma_a_line_reads_its_spans(before, gap);
            lemma_a_line_reads_its_spans(before.push(gap), button);
            assert(joined(labels, "    "@) =~= joined(fewer, "    "@) + "    "@ + labels.last());
        }
    }
}

/// Every choice has its button, every second one of the spans, and the button of the
/// selected choice alone is reversed.
pub proof fn lemma_a_button_is_reversed_where_it_is_selected(
    choices: Seq<ModalChoice>,
    n: nat,
    selected: int,
    i: int,
)
    requires
        n <= choices.len(),
        0 <= i < n,
    ensures
        ({
            let spans = button_spans(choices, n, selected);
            &&& spans.len() == 2 * n - 1
            &&& spans[2 * i].text == " "@ + choices[i].label@ + " "@
            &&& (spans[2 * i].style.added.bits & Modifier::reversed().bits != 0) <==> i == selected
        }),
    decreases n,
{
    assert((0u16 | 0x0001u16) & 0x0040u16 == 0 && ((0u16 | 0x0001u16) | 0x0040u16) & 0x0040u16
        != 0) by (bit_vector);
    if n > 1 {
        if i < n - 1 {
            lemma_a_button_is_reversed_where_it_is_selected(
                choices,
                (n - 1) as nat,
                selected,
                i,
            );
        } else {
            lemma_a_button_is_reversed_where_it_is_selected(
                choices,
                (n - 1) as nat,
                selected,
                0,
            );
        }
    } else {
        assert(button_spans(choices, 0, selected).len() == 0);
    }
}

/// The row of a choice reads as its label, and as its description behind two spaces,
/// behind a mark where it is selected; and it takes the same columns in both states.
pub proof fn lemma_a_choice_reads_as_its_label(
    label: Seq<char>,
    description: Seq<char>,
    selected: bool,
)
    ensures
        ({
            let mark = if selected {
                "› "@
            } else {
                "  "@
            };
            &&& line_text(choice_line(label, None, selected).spans) == mark + label
            &&& line_text(choice_line(label, Some(description), selected).spans) == mark + label
                + "  "@ + description
        }),
        "› "@.len() == "  "@.len(),
        "› "@ != "  "@,
{
    reveal_strlit("› ");
    reveal_strlit("  ");
    assert("› "@[0] != "  "@[0]);
    let none: Seq<SpanView> = seq![];
    let spans = choice_line(label, Some(description), selected).spans;
    let short = choice_line(label, None, selected).spans;
    assert(short =~= seq![spans[0]].push(spans[1]));
    assert(spans =~= short.push(spans[2]).push(spans[3]));
    lemma_a_line_reads_its_spans(none, spans[0]);
    lemma_a_line_reads_its_spans(seq![spans[0]], spans[1]);
    lemma_a_line_reads_its_spans(short, spans[2]);
    lemma_a_line_reads_its_spans(short.push(spans[2]), spans[3]);
}

/// A modal reads from its message down: the message's lines first, then a blank one,
/// then the choices in their order, then a blank one, and its keys last. Together the
/// message's lines hold the words of the message, and one that is wider than the box is
/// a single word.
pub proof fn lemma_a_modal_reads_from_its_message_down(modal: Modal, i: int)
    ensures
        ({
            let lines = modal_lines(modal);
            let message = message_texts(modal);
            let n = message.len() as int;
            let rows = match modal.layout {
                ModalLayout::Row => 1int,
                ModalLayout::List => modal.choices@.len() as int,
            };
            &&& joined(message, " "@) == joined(words(modal.message@), " "@)
            &&& lines.len() == n + rows + 3
            &&& 0 <= i < n ==> line_text(lines[i].spans) == message[i]
            &&& 0 <= i < n ==> (message[i].len() <= MODAL_TEXT_WIDTH || words(
                modal.message@,
            ).contains(message[i]))
            &&& lines[n].spans.len() == 0
            &&& lines[n + rows + 1].spans.len() == 0
            &&& modal.layout == ModalLayout::Row ==> {
                &&& line_text(lines[n + 1].spans) == joined(
                    Seq::new(
                        modal.choices@.len(),
                        |k: int| " "@ + modal.choices@[k].label@ + " "@,
                    ),
                    "    "@,
                )
                &&& line_text(lines.last().spans) == ROW_FOOTER@
            }
            &&& modal.layout == ModalLayout::List ==> {
                &&& 0 <= i < rows ==> lines[n + 1 + i] == choice_line(
                    modal.choices@[i].label@,
                    description_of(modal.choices@[i]),
                    i == modal.selected,
                )
                &&& line_text(lines.last().spans) == LIST_FOOTER@
            }
        }),
{
    let lines = modal_lines(modal);
    let n = message_texts(modal).len() as int;
    let none: Seq<SpanView> = seq![];
    reveal_strlit(" ");
    assert(" "@ =~= seq![' ']);
    lemma_words_are_words(modal.message@);
    lemma_wrapping_keeps_the_words(words(modal.message@), MODAL_TEXT_WIDTH as int);
    lemma_wrapped_lines_fit(words(modal.message@), MODAL_TEXT_WIDTH as int);
    lemma_buttons_read_as_their_labels(
        modal.choices@,
        modal.choices@.len(),
        modal.selected as int,
    );
    if 0 <= i < n {
        assert(lines[i].spans =~= seq![lines[i].spans[0]]);
        lemma_a_line_reads_its_spans(none, lines[i].spans[0]);
    }
    assert(lines.last().spans =~= seq![lines.last().spans[0]]);
    lemma_a_line_reads_its_spans(none, lines.last().spans[0]);
}

/// A box on top of the board hides what lies beneath it: it clears, and then draws on,
/// the same cells, and those lie on the screen.
pub proof fn lemma_a_box_clears_what_it_covers(modal: Modal, app: App, screen: Rect)
    requires
        on_grid(screen),
    ensures
        ({
            let area = centered(screen, MODAL_WIDTH, modal_height(modal) as u16);
            let draws = modal_draws(modal, screen);
            &&& draws.len() == 2
            &&& draws[0] == DrawView::Clear(area)
            &&& draws[1] matches DrawView::Text(text) && text.area == area && text.lines
                == modal_lines(modal) && text.scroll == 0
            &&& forall|col: int, row: int| #[trigger]
                area.holds(col, row) ==> screen.holds(col, row)
        }),
        ({
            let area = centered(screen, CONFIRM_WIDTH, CONFIRM_HEIGHT);
            let stop = stop_confirm_draws(app, screen);
            let interrupt = interrupt_confirm_draws(app, screen);
            &&& stop.len() == if app.pending_stop is Some {
                2int
            } else {
                0
            }
            &&& interrupt.len() == if app.pending_interrupt is Some {
                2int
            } else {
                0
            }
            &&& app.pending_stop is Some ==> stop[0] == DrawView::Clear(area)
            &&& app.pending_interrupt is Some ==> interrupt[0] == DrawView::Clear(area)
        }),
{
    lemma_centered_stays_inside(screen, MODAL_WIDTH, modal_height(modal) as u16);
}

/// A confirmation asks about its session by name: its third line ends with what the
/// session is called.
pub proof fn lemma_a_confirmation_names_its_session(app: App, screen: Rect)
    ensures
        app.pending_stop matches Some(pending) ==> stop_confirm_draws(app, screen)[1] matches
            DrawView::Text(text) && app.name_of(pending.session_id@).is_suffix_of(
            line_text(text.lines[2].spans),
        ),
        app.pending_interrupt matches Some(pending) ==> interrupt_confirm_draws(app, screen)[1]
            matches DrawView::Text(text) && app.name_of(pending.session_id@).is_suffix_of(
            line_text(text.lines[2].spans),
        ),
{
    let none: Seq<SpanView> = seq![];
    if let Some(pending) = app.pending_stop {
        let name = app.name_of(pending.session_id@);
        let span = raw_span("Stop it and reply in place?  —  "@ + name);
        lemma_a_line_reads_its_spans(none, span);
        assert(span.text.subrange(span.text.len() - name.len(), span.text.len() as int) =~= name);
    }
    if let Some(pending) = app.pending_interrupt {
        let name = app.name_of(pending.session_id@);
        let span = raw_span("Stop it?  —  "@ + name);
        lemma_a_line_reads_its_spans(none, span);
        assert(span.text.subrange(span.text.len() - name.len(), span.text.len() as int) =~= name);
    }
}

} // verus!
