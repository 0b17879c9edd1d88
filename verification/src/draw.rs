//! What a frame is made of: the widgets to draw, in order.
//!
//! A frame is a list of draws. Later draws lie on top of earlier ones.

use vstd::prelude::*;
use crate::geometry::Rect;
use crate::style::{line_views, Alignment, Line, LineView, Style};

verus! {

/// A border on all four sides, with a title in it.
#[derive(Debug)]
pub struct Frame {
    pub title: String,
    pub border: Style,
}

/// What a border shows.
pub struct FrameView {
    pub title: Seq<char>,
    pub border: Style,
}

impl View for Frame {
    type V = FrameView;

    open spec fn view(&self) -> FrameView {
        FrameView { title: self.title@, border: self.border }
    }
}

/// A plain border with the title `title`.
pub open spec fn titled(title: Seq<char>) -> FrameView {
    FrameView { title, border: Style::plain() }
}

impl Frame {
    /// A plain border with the title `title`.
    pub fn titled(title: &str) -> (frame: Frame)
        ensures
            frame@ == titled(title@),
    {
        Frame { title: title.to_owned(), border: Style::plain() }
    }
}

/// Lines of text in an area: inside a border where there is one, wrapped where
/// that is asked, without the first `scroll` rows.
#[derive(Debug)]
pub struct Paragraph {
    pub area: Rect,
    pub lines: Vec<Line>,
    pub style: Style,
    pub alignment: Alignment,
    pub frame: Option<Frame>,
    pub wrap: bool,
    pub scroll: u16,
}

/// What a paragraph shows.
pub struct ParagraphView {
    pub area: Rect,
    pub lines: Seq<LineView>,
    pub style: Style,
    pub alignment: Alignment,
    pub frame: Option<FrameView>,
    pub wrap: bool,
    pub scroll: u16,
}

/// What a border shows, where there is one.
pub open spec fn optional_frame(frame: Option<Frame>) -> Option<FrameView> {
    match frame {
        Some(frame) => Some(frame@),
        None => None,
    }
}

impl View for Paragraph {
    type V = ParagraphView;

    open spec fn view(&self) -> ParagraphView {
        ParagraphView {
            area: self.area,
            lines: line_views(self.lines@),
            style: self.style,
            alignment: self.alignment,
            frame: optional_frame(self.frame),
            wrap: self.wrap,
            scroll: self.scroll,
        }
    }
}

/// The lines from the area's top on, with nothing around or beneath them.
pub open spec fn plain_paragraph(lines: Seq<LineView>, area: Rect) -> ParagraphView {
    ParagraphView {
        area,
        lines,
        style: Style::plain(),
        alignment: Alignment::Left,
        frame: None,
        wrap: false,
        scroll: 0,
    }
}

impl Paragraph {
    /// The lines from the area's top on.
    pub fn plain(lines: Vec<Line>, area: Rect) -> (paragraph: Paragraph)
        ensures
            paragraph@ == plain_paragraph(line_views(lines@), area),
    {
        Paragraph {
            area,
            lines,
            style: Style::plain(),
            alignment: Alignment::Left,
            frame: None,
            wrap: false,
            scroll: 0,
        }
    }

    /// One line at the area's top.
    pub fn of_line(line: Line, area: Rect) -> (paragraph: Paragraph)
        ensures
            paragraph@ == plain_paragraph(seq![line@], area),
    {
        let mut lines: Vec<Line> = Vec::new();
        lines.push(line);
        assert(line_views(lines@) =~= seq![line@]);
        Paragraph::plain(lines, area)
    }
}

/// A row of a list, with a style beneath it.
#[derive(Debug)]
pub struct ListRow {
    pub line: Line,
    pub style: Style,
}

/// What a row of a list shows.
pub struct ListRowView {
    pub line: LineView,
    pub style: Style,
}

impl View for ListRow {
    type V = ListRowView;

    open spec fn view(&self) -> ListRowView {
        ListRowView { line: self.line@, style: self.style }
    }
}

/// What each of the rows shows.
pub open spec fn row_views(rows: Seq<ListRow>) -> Seq<ListRowView> {
    rows.map_values(|r: ListRow| r@)
}

/// Pushing a row pushes what it shows.
pub broadcast proof fn lemma_row_views_push(rows: Seq<ListRow>, row: ListRow)
    ensures
        #[trigger] row_views(rows.push(row)) == row_views(rows).push(row@),
{
    assert(row_views(rows.push(row)) =~= row_views(rows).push(row@));
}

/// A list inside a border, from the row `offset` on, with the row `selected`
/// marked by a symbol and a style.
#[derive(Debug)]
pub struct RowList {
    pub area: Rect,
    pub frame: Frame,
    pub rows: Vec<ListRow>,
    pub highlight: Style,
    pub symbol: String,
    pub offset: usize,
    pub selected: Option<usize>,
}

/// What a list shows.
pub struct RowListView {
    pub area: Rect,
    pub frame: FrameView,
    pub rows: Seq<ListRowView>,
    pub highlight: Style,
    pub symbol: Seq<char>,
    pub offset: usize,
    pub selected: Option<usize>,
}

impl View for RowList {
    type V = RowListView;

    open spec fn view(&self) -> RowListView {
        RowListView {
            area: self.area,
            frame: self.frame@,
            rows: row_views(self.rows@),
            highlight: self.highlight,
            symbol: self.symbol@,
            offset: self.offset,
            selected: self.selected,
        }
    }
}

/// A vertical scrollbar on the right edge of an area.
#[derive(Debug)]
pub struct Scrollbar {
    pub area: Rect,
    pub content_length: usize,
    pub position: usize,
    pub viewport: usize,
    pub begin: String,
    pub end: String,
    pub style: Style,
}

/// What a scrollbar shows.
pub struct ScrollbarView {
    pub area: Rect,
    pub content_length: usize,
    pub position: usize,
    pub viewport: usize,
    pub begin: Seq<char>,
    pub end: Seq<char>,
    pub style: Style,
}

impl View for Scrollbar {
    type V = ScrollbarView;

    open spec fn view(&self) -> ScrollbarView {
        ScrollbarView {
            area: self.area,
            content_length: self.content_length,
            position: self.position,
            viewport: self.viewport,
            begin: self.begin@,
            end: self.end@,
            style: self.style,
        }
    }
}

/// One widget of a frame.
#[derive(Debug)]
pub enum Draw {
    /// A border.
    Border(Rect, Frame),
    /// Nothing: what lies beneath the area is wiped.
    Clear(Rect),
    /// Lines of text.
    Text(Paragraph),
    /// A list.
    List(RowList),
    /// A scrollbar.
    Scroll(Scrollbar),
    /// The editor of the open draft.
    Editor(Rect),
}

/// What one widget of a frame shows.
pub enum DrawView {
    Border(Rect, FrameView),
    Clear(Rect),
    Text(ParagraphView),
    List(RowListView),
    Scroll(ScrollbarView),
    Editor(Rect),
}

impl View for Draw {
    type V = DrawView;

    open spec fn view(&self) -> DrawView {
        match *self {
            Draw::Border(area, frame) => DrawView::Border(area, frame@),
            Draw::Clear(area) => DrawView::Clear(area),
            Draw::Text(paragraph) => DrawView::Text(paragraph@),
            Draw::List(list) => DrawView::List(list@),
            Draw::Scroll(bar) => DrawView::Scroll(bar@),
            Draw::Editor(area) => DrawView::Editor(area),
        }
    }
}

/// What each of the draws shows.
pub open spec fn draw_views(draws: Seq<Draw>) -> Seq<DrawView> {
    draws.map_values(|d: Draw| d@)
}

/// Pushing a draw pushes what it shows.
pub broadcast proof fn lemma_draw_views_push(draws: Seq<Draw>, draw: Draw)
    ensures
        #[trigger] draw_views(draws.push(draw)) == draw_views(draws).push(draw@),
{
    assert(draw_views(draws.push(draw)) =~= draw_views(draws).push(draw@));
}

/// Move the draws of `more` behind those of `draws`.
pub fn append(draws: &mut Vec<Draw>, more: Vec<Draw>)
    ensures
        draw_views(final(draws)@) == draw_views(old(draws)@) + draw_views(more@),
{
    let mut rest = more;
    draws.append(&mut rest);
    assert(draw_views(draws@) =~= draw_views(old(draws)@) + draw_views(more@));
}

} // verus!
