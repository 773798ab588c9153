//! Colours, styled text, and the things that a frame is painted with.
use vstd::prelude::*;

use crate::app::types::Rect;
use crate::text;

verus! {

// ---------------------------------------------------------------------------
// Styles
// ---------------------------------------------------------------------------
#[derive(Debug, Clone, Copy, PartialEq, Eq, Structural)]
pub struct Color {
    pub r: u8,
    pub g: u8,
    pub b: u8,
}

impl Color {
    #[verifier::allow_in_spec]
    pub fn rgb(r: u8, g: u8, b: u8) -> (c: Color)
        returns
            (Color { r, g, b }),
    {
        Color { r, g, b }
    }
}

/// How text looks. What is not set is left as it is.
#[derive(Debug, Clone, Copy, PartialEq, Eq)]
pub struct Style {
    pub fg: Option<Color>,
    pub bg: Option<Color>,
    pub bold: bool,
    pub dim: bool,
}

impl Style {
    #[verifier::allow_in_spec]
    pub fn plain() -> (s: Style)
        returns
            (Style { fg: None, bg: None, bold: false, dim: false }),
    {
        Style { fg: None, bg: None, bold: false, dim: false }
    }

    #[verifier::allow_in_spec]
    pub fn fg(self, c: Color) -> (s: Style)
        returns
            (Style { fg: Some(c), ..self }),
    {
        Style { fg: Some(c), ..self }
    }

    #[verifier::allow_in_spec]
    pub fn bg(self, c: Color) -> (s: Style)
        returns
            (Style { bg: Some(c), ..self }),
    {
        Style { bg: Some(c), ..self }
    }

    #[verifier::allow_in_spec]
    pub fn bold(self) -> (s: Style)
        returns
            (Style { bold: true, ..self }),
    {
        Style { bold: true, ..self }
    }

    #[verifier::allow_in_spec]
    pub fn dim(self) -> (s: Style)
        returns
            (Style { dim: true, ..self }),
    {
        Style { dim: true, ..self }
    }

    /// This style with everything that `over` sets.
    #[verifier::allow_in_spec]
    pub fn patch(self, over: Style) -> (s: Style)
        returns
            (Style {
                fg: match over.fg {
                    Some(c) => Some(c),
                    None => self.fg,
                },
                bg: match over.bg {
                    Some(c) => Some(c),
                    None => self.bg,
                },
                bold: self.bold || over.bold,
                dim: self.dim || over.dim,
            }),
    {
        Style {
            fg: match over.fg {
                Some(c) => Some(c),
                None => self.fg,
            },
            bg: match over.bg {
                Some(c) => Some(c),
                None => self.bg,
            },
            bold: self.bold || over.bold,
            dim: self.dim || over.dim,
        }
    }
}

// ---------------------------------------------------------------------------
// Text
// ---------------------------------------------------------------------------
#[derive(Debug, PartialEq, Eq)]
pub struct Span {
    pub content: String,
    pub style: Style,
}

pub ghost struct SpanView {
    pub content: Seq<char>,
    pub style: Style,
}

impl View for Span {
    type V = SpanView;

    open spec fn view(&self) -> SpanView {
        SpanView { content: self.content@, style: self.style }
    }
}

/// A piece of text in a style.
pub open spec fn styled(content: Seq<char>, style: Style) -> SpanView {
    SpanView { content, style }
}

/// A piece of text without a style.
pub open spec fn raw(content: Seq<char>) -> SpanView {
    SpanView { content, style: Style::plain() }
}

#[derive(Debug, PartialEq, Eq)]
pub struct Line {
    pub spans: Vec<Span>,
}

impl View for Line {
    type V = Seq<SpanView>;

    open spec fn view(&self) -> Seq<SpanView> {
        text::views(self.spans@)
    }
}

impl Line {
    pub fn new() -> (r: Line)
        ensures
            r@ == Seq::<SpanView>::empty(),
    {
        let r = Line { spans: Vec::new() };
        assert(r@ =~= Seq::<SpanView>::empty());
        r
    }

    pub fn put(&mut self, content: &str, style: Style)
        ensures
            final(self)@ == old(self)@.push(styled(content@, style)),
    {
        let s = Span { content: content.to_owned(), style };
        proof {
            text::lemma_views_push(self.spans@, s);
        }
        self.spans.push(s);
    }

    pub fn put_raw(&mut self, content: &str)
        ensures
            final(self)@ == old(self)@.push(raw(content@)),
    {
        self.put(content, Style::plain());
    }

    /// A line of one piece.
    pub fn of(content: &str, style: Style) -> (r: Line)
        ensures
            r@ == seq![styled(content@, style)],
    {
        let mut l = Line::new();
        l.put(content, style);
        l
    }
}

/// Lines, from top to bottom.
#[derive(Debug, PartialEq, Eq)]
pub struct Page {
    pub lines: Vec<Line>,
}

impl View for Page {
    type V = Seq<Seq<SpanView>>;

    open spec fn view(&self) -> Seq<Seq<SpanView>> {
        text::views(self.lines@)
    }
}

impl Page {
    pub fn new() -> (r: Page)
        ensures
            r@ == Seq::<Seq<SpanView>>::empty(),
    {
        let r = Page { lines: Vec::new() };
        assert(r@ =~= Seq::<Seq<SpanView>>::empty());
        r
    }

    pub fn put(&mut self, line: Line)
        ensures
            final(self)@ == old(self)@.push(line@),
    {
        proof {
            text::lemma_views_push(self.lines@, line);
        }
        self.lines.push(line);
    }

    /// An empty line.
    pub fn skip(&mut self)
        ensures
            final(self)@ == old(self)@.push(seq![]),
    {
        self.put(Line::new());
    }

    /// A line of one piece.
    pub fn say(&mut self, content: &str, style: Style)
        ensures
            final(self)@ == old(self)@.push(seq![styled(content@, style)]),
    {
        self.put(Line::of(content, style));
    }

    pub fn of(line: Line) -> (r: Page)
        ensures
            r@ == seq![line@],
    {
        let mut p = Page::new();
        p.put(line);
        p
    }
}

// ---------------------------------------------------------------------------
// Things to paint
// ---------------------------------------------------------------------------
/// A border on all sides, with a title.
#[derive(Debug, PartialEq, Eq)]
pub struct Frame {
    pub title: Line,
    pub border: Style,
    pub style: Style,
}

pub ghost struct FrameView {
    pub title: Seq<SpanView>,
    pub border: Style,
    pub style: Style,
}

impl View for Frame {
    type V = FrameView;

    open spec fn view(&self) -> FrameView {
        FrameView { title: self.title@, border: self.border, style: self.style }
    }
}

#[derive(Debug, PartialEq, Eq)]
pub enum Widget {
    /// Wipes what was there.
    Clear,
    Frame(Frame),
    /// A paragraph, maybe in a frame, maybe with long lines wrapped.
    Text { page: Page, style: Style, frame: Option<Frame>, wrap: bool },
    /// A list in a frame.
    Items { page: Page, frame: Frame },
}

pub ghost enum WidgetView {
    Clear,
    Frame(FrameView),
    Text { page: Seq<Seq<SpanView>>, style: Style, frame: Option<FrameView>, wrap: bool },
    Items { page: Seq<Seq<SpanView>>, frame: FrameView },
}

impl View for Widget {
    type V = WidgetView;

    open spec fn view(&self) -> WidgetView {
        match self {
            Widget::Clear => WidgetView::Clear,
            Widget::Frame(f) => WidgetView::Frame(f@),
            Widget::Text { page, style, frame, wrap } => WidgetView::Text {
                page: page@,
                style: *style,
                frame: match frame {
                    Some(f) => Some(f@),
                    None => None,
                },
                wrap: *wrap,
            },
            Widget::Items { page, frame } => WidgetView::Items { page: page@, frame: frame@ },
        }
    }
}

#[derive(Debug, PartialEq, Eq)]
pub struct Paint {
    pub area: Rect,
    pub widget: Widget,
}

pub ghost struct PaintView {
    pub area: Rect,
    pub widget: WidgetView,
}

impl View for Paint {
    type V = PaintView;

    open spec fn view(&self) -> PaintView {
        PaintView { area: self.area, widget: self.widget@ }
    }
}

/// Everything to paint for a frame, in order.
#[derive(Debug, PartialEq, Eq)]
pub struct Canvas {
    pub paints: Vec<Paint>,
}

impl View for Canvas {
    type V = Seq<PaintView>;

    open spec fn view(&self) -> Seq<PaintView> {
        text::views(self.paints@)
    }
}

/// A paragraph without a frame.
pub open spec fn bare_text(area: Rect, page: Seq<Seq<SpanView>>, style: Style) -> PaintView {
    PaintView { area, widget: WidgetView::Text { page, style, frame: None, wrap: false } }
}

/// A paragraph in a frame.
pub open spec fn framed_text(
    area: Rect,
    page: Seq<Seq<SpanView>>,
    frame: FrameView,
    wrap: bool,
) -> PaintView {
    PaintView {
        area,
        widget: WidgetView::Text { page, style: Style::plain(), frame: Some(frame), wrap },
    }
}

impl Canvas {
    pub fn new() -> (r: Canvas)
        ensures
            r@ == Seq::<PaintView>::empty(),
    {
        let r = Canvas { paints: Vec::new() };
        assert(r@ =~= Seq::<PaintView>::empty());
        r
    }

    pub fn put(&mut self, area: Rect, widget: Widget)
        ensures
            final(self)@ == old(self)@.push(PaintView { area, widget: widget@ }),
    {
        let p = Paint { area, widget };
        proof {
            text::lemma_views_push(self.paints@, p);
        }
        self.paints.push(p);
    }

    pub fn put_text(&mut self, area: Rect, page: Page, style: Style)
        ensures
            final(self)@ == old(self)@.push(bare_text(area, page@, style)),
    {
        self.put(area, Widget::Text { page, style, frame: None, wrap: false });
    }

    pub fn put_framed(&mut self, area: Rect, page: Page, frame: Frame, wrap: bool)
        ensures
            final(self)@ == old(self)@.push(framed_text(area, page@, frame@, wrap)),
    {
        self.put(area, Widget::Text { page, style: Style::plain(), frame: Some(frame), wrap });
    }
}

// ---------------------------------------------------------------------------
// Parts of an area
// ---------------------------------------------------------------------------
/// What one part of a divided area asks for.
#[derive(Debug, Clone, Copy, PartialEq, Eq, Structural)]
pub enum Part {
    Length(u16),
    Min(u16),
    Percentage(u16),
}

} // verus!
