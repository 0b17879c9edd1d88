//! Styled text: colors, attributes, spans and lines.

use vstd::prelude::*;

verus! {

/// A terminal color.
#[derive(Debug, Clone, Copy, PartialEq, Eq, Structural)]
pub enum Color {
    Reset,
    Black,
    Red,
    Green,
    Yellow,
    Blue,
    Magenta,
    Cyan,
    Gray,
    DarkGray,
    LightRed,
    LightGreen,
    LightYellow,
    LightBlue,
    LightMagenta,
    LightCyan,
    White,
    Rgb(u8, u8, u8),
    Indexed(u8),
}

/// A set of text attributes, one bit each.
#[derive(Debug, Clone, Copy, PartialEq, Eq, Structural)]
pub struct Modifier {
    pub bits: u16,
}

impl Modifier {
    /// No attribute.
    #[verifier::allow_in_spec]
    pub fn none() -> Modifier
        returns
            (Modifier { bits: 0 }),
    {
        Modifier { bits: 0 }
    }

    /// Bold text.
    #[verifier::allow_in_spec]
    pub fn bold() -> Modifier
        returns
            (Modifier { bits: 0x0001 }),
    {
        Modifier { bits: 0x0001 }
    }

    /// Dim text.
    #[verifier::allow_in_spec]
    pub fn dim() -> Modifier
        returns
            (Modifier { bits: 0x0002 }),
    {
        Modifier { bits: 0x0002 }
    }

    /// Text with its colors swapped.
    #[verifier::allow_in_spec]
    pub fn reversed() -> Modifier
        returns
            (Modifier { bits: 0x0040 }),
    {
        Modifier { bits: 0x0040 }
    }
}

/// How a stretch of text is drawn: what it sets, and which attributes it adds to
/// and takes from what lies beneath.
#[derive(Debug, Clone, Copy, PartialEq, Eq, Structural)]
pub struct Style {
    pub fg: Option<Color>,
    pub bg: Option<Color>,
    pub underline: Option<Color>,
    pub added: Modifier,
    pub removed: Modifier,
}

impl Style {
    /// The style that changes nothing.
    #[verifier::allow_in_spec]
    pub fn plain() -> Style
        returns
            (Style {
                fg: None,
                bg: None,
                underline: None,
                added: Modifier::none(),
                removed: Modifier::none(),
            }),
    {
        Style {
            fg: None,
            bg: None,
            underline: None,
            added: Modifier::none(),
            removed: Modifier::none(),
        }
    }

    /// This style with `color` in front.
    #[verifier::allow_in_spec]
    pub fn fg(self, color: Color) -> Style
        returns
            (Style { fg: Some(color), ..self }),
    {
        Style { fg: Some(color), ..self }
    }

    /// This style with `color` behind.
    #[verifier::allow_in_spec]
    pub fn bg(self, color: Color) -> Style
        returns
            (Style { bg: Some(color), ..self }),
    {
        Style { bg: Some(color), ..self }
    }

    /// This style with the attributes of `modifier` added: they join what it adds
    /// and leave what it takes away.
    #[verifier::allow_in_spec]
    pub fn add_modifier(self, modifier: Modifier) -> Style
        returns
            (Style {
                added: Modifier { bits: self.added.bits | modifier.bits },
                removed: Modifier { bits: self.removed.bits & !modifier.bits },
                ..self
            }),
    {
        Style {
            added: Modifier { bits: self.added.bits | modifier.bits },
            removed: Modifier { bits: self.removed.bits & !modifier.bits },
            ..self
        }
    }
}

/// Adding an attribute composes onto a style: nothing that the style already set
/// or added is lost, and adding it twice is adding it once.
pub proof fn lemma_adding_a_modifier_keeps_the_style(style: Style, modifier: Modifier)
    ensures
        ({
            let out = style.add_modifier(modifier);
            &&& out.fg == style.fg && out.bg == style.bg && out.underline == style.underline
            &&& out.added.bits & style.added.bits == style.added.bits
            &&& out.added.bits & modifier.bits == modifier.bits
            &&& out.add_modifier(modifier) == out
        }),
{
    let a = style.added.bits;
    let r = style.removed.bits;
    let m = modifier.bits;
    assert((a | m) & a == a && (a | m) & m == m && ((a | m) | m) == (a | m) && ((r & !m) & !m) == (r
        & !m)) by (bit_vector);
}

/// Which edge text keeps to.
#[derive(Debug, Clone, Copy, PartialEq, Eq, Structural)]
pub enum Alignment {
    Left,
    Center,
    Right,
}

/// A stretch of text in one style.
#[derive(Debug)]
pub struct Span {
    pub text: String,
    pub style: Style,
}

/// What a span shows.
pub struct SpanView {
    pub text: Seq<char>,
    pub style: Style,
}

impl View for Span {
    type V = SpanView;

    open spec fn view(&self) -> SpanView {
        SpanView { text: self.text@, style: self.style }
    }
}

/// The span of `text` in `style`.
pub open spec fn styled_span(text: Seq<char>, style: Style) -> SpanView {
    SpanView { text, style }
}

/// The span of `text` in the style that changes nothing.
pub open spec fn raw_span(text: Seq<char>) -> SpanView {
    SpanView { text, style: Style::plain() }
}

/// What each of the spans shows.
pub open spec fn span_views(spans: Seq<Span>) -> Seq<SpanView> {
    spans.map_values(|s: Span| s@)
}

impl Span {
    /// `text` in `style`.
    pub fn styled(text: String, style: Style) -> (span: Span)
        ensures
            span@ == styled_span(text@, style),
    {
        Span { text, style }
    }

    /// `text` as it is.
    pub fn raw(text: &str) -> (span: Span)
        ensures
            span@ == raw_span(text@),
    {
        Span { text: text.to_owned(), style: Style::plain() }
    }

    /// A span that shows the same.
    pub fn copy(&self) -> (span: Span)
        ensures
            span@ == self@,
    {
        Span { text: self.text.clone(), style: self.style }
    }
}

/// A line of spans, with a style beneath them and an edge to keep to.
#[derive(Debug)]
pub struct Line {
    pub spans: Vec<Span>,
    pub style: Style,
    pub alignment: Option<Alignment>,
}

/// What a line shows.
pub struct LineView {
    pub spans: Seq<SpanView>,
    pub style: Style,
    pub alignment: Option<Alignment>,
}

impl View for Line {
    type V = LineView;

    open spec fn view(&self) -> LineView {
        LineView { spans: span_views(self.spans@), style: self.style, alignment: self.alignment }
    }
}

/// The line of `spans` with nothing beneath them.
pub open spec fn plain_line(spans: Seq<SpanView>) -> LineView {
    LineView { spans, style: Style::plain(), alignment: None }
}

/// What each of the lines shows.
pub open spec fn line_views(lines: Seq<Line>) -> Seq<LineView> {
    lines.map_values(|l: Line| l@)
}

/// The text of a line: its spans' texts in a row.
pub open spec fn line_text(spans: Seq<SpanView>) -> Seq<char>
    decreases spans.len(),
{
    if spans.len() == 0 {
        seq![]
    } else {
        line_text(spans.drop_last()) + spans.last().text
    }
}

/// The texts of a line's spans.
pub open spec fn span_texts(spans: Seq<SpanView>) -> Seq<Seq<char>> {
    spans.map_values(|s: SpanView| s.text)
}

impl Line {
    /// The line of `spans`.
    pub fn from_spans(spans: Vec<Span>) -> (line: Line)
        ensures
            line@ == plain_line(span_views(spans@)),
    {
        Line { spans, style: Style::plain(), alignment: None }
    }

    /// The line of one span.
    pub fn from_span(span: Span) -> (line: Line)
        ensures
            line@ == plain_line(seq![span@]),
    {
        let mut spans: Vec<Span> = Vec::new();
        spans.push(span);
        assert(span_views(spans@) =~= seq![span@]);
        Line::from_spans(spans)
    }

    /// The line without text.
    pub fn blank() -> (line: Line)
        ensures
            line@ == plain_line(seq![]),
    {
        let spans: Vec<Span> = Vec::new();
        assert(span_views(spans@) =~= seq![]);
        Line::from_spans(spans)
    }

    /// A line that shows the same.
    pub fn copy(&self) -> (line: Line)
        ensures
            line@ == self@,
    {
        let mut spans: Vec<Span> = Vec::new();
        let mut i: usize = 0;
        while i < self.spans.len()
            invariant
                i <= self.spans@.len(),
                span_views(spans@) == span_views(self.spans@).take(i as int),
            decreases self.spans@.len() - i,
        {
            let ghost before = spans@;
            spans.push(self.spans[i].copy());
            assert(span_views(spans@) =~= span_views(before).push(self.spans@[i as int]@));
            assert(span_views(self.spans@).take(i + 1) =~= span_views(self.spans@).take(
                i as int,
            ).push(self.spans@[i as int]@));
            i += 1;
        }
        assert(span_views(self.spans@).take(i as int) =~= span_views(self.spans@));
        Line { spans, style: self.style, alignment: self.alignment }
    }
}

/// Pushing a span pushes what it shows.
pub broadcast proof fn lemma_span_views_push(spans: Seq<Span>, span: Span)
    ensures
        #[trigger] span_views(spans.push(span)) == span_views(spans).push(span@),
{
    assert(span_views(spans.push(span)) =~= span_views(spans).push(span@));
}

/// Pushing a line pushes what it shows.
pub broadcast proof fn lemma_line_views_push(lines: Seq<Line>, line: Line)
    ensures
        #[trigger] line_views(lines.push(line)) == line_views(lines).push(line@),
{
    assert(line_views(lines.push(line)) =~= line_views(lines).push(line@));
}

/// Copy the lines `from..to`.
pub fn copy_lines(lines: &Vec<Line>, from: usize, to: usize) -> (out: Vec<Line>)
    requires
        from <= to <= lines@.len(),
    ensures
        line_views(out@) == line_views(lines@).subrange(from as int, to as int),
{
    let mut out: Vec<Line> = Vec::new();
    let mut i: usize = from;
    while i < to
        invariant
            from <= i <= to <= lines@.len(),
            line_views(out@) == line_views(lines@).subrange(from as int, i as int),
        decreases to - i,
    {
        let ghost before = out@;
        out.push(lines[i].copy());
        proof {
            lemma_line_views_push(before, out@.last());
        }
        assert(line_views(lines@).subrange(from as int, i + 1) =~= line_views(lines@).subrange(
            from as int,
            i as int,
        ).push(lines@[i as int]@));
        i += 1;
    }
    out
}

/// A style sets what it is told to and nothing else: a color in front leaves the one
/// behind, and the other way round; the last one set counts; and an attribute that was
/// added is no longer taken away, while every other one stays as it was.
pub proof fn lemma_a_style_sets_what_it_is_told_to(
    style: Style,
    color: Color,
    other: Color,
    modifier: Modifier,
)
    ensures
        style.fg(color).fg == Some(color),
        style.fg(color).bg == style.bg,
        style.fg(color).added == style.added && style.fg(color).removed == style.removed,
        style.fg(other).fg(color) == style.fg(color),
        style.bg(color).bg == Some(color),
        style.bg(color).fg == style.fg,
        style.bg(color).added == style.added && style.bg(color).removed == style.removed,
        style.add_modifier(modifier).removed.bits & modifier.bits == 0,
        style.add_modifier(modifier).removed.bits | modifier.bits == style.removed.bits
            | modifier.bits,
        style.add_modifier(modifier).added.bits & !modifier.bits == style.added.bits
            & !modifier.bits,
        style.add_modifier(Modifier::none()) == style,
{
    let a = style.added.bits;
    let r = style.removed.bits;
    let m = modifier.bits;
    assert((r & !m) & m == 0 && (r & !m) | m == r | m && (a | m) & !m == a & !m) by (bit_vector);
    assert(a | 0u16 == a && r & !0u16 == r) by (bit_vector);
}

/// The attributes are told apart: no two of them share a bit.
pub proof fn lemma_attributes_are_told_apart()
    ensures
        Modifier::bold().bits & Modifier::dim().bits == 0,
        Modifier::bold().bits & Modifier::reversed().bits == 0,
        Modifier::dim().bits & Modifier::reversed().bits == 0,
        Modifier::bold().bits != 0 && Modifier::dim().bits != 0 && Modifier::reversed().bits != 0,
        Modifier::none().bits == 0,
{
    assert(0x0001u16 & 0x0002u16 == 0 && 0x0001u16 & 0x0040u16 == 0 && 0x0002u16 & 0x0040u16 == 0)
        by (bit_vector);
}

/// The text of spans is as long as their texts together, and a span more is its text
/// more.
pub proof fn lemma_a_line_reads_its_spans(spans: Seq<SpanView>, span: SpanView)
    ensures
        line_text(spans.push(span)) == line_text(spans) + span.text,
        line_text(seq![span]) == span.text,
{
    assert(spans.push(span).drop_last() =~= spans);
    let none: Seq<SpanView> = seq![];
    assert(seq![span].drop_last() =~= none);
    assert(line_text(none) =~= seq![]);
    assert(line_text(seq![span]) =~= line_text(none) + span.text);
}

} // verus!
