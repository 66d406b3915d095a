//! Text as it is drawn on the terminal.

use vstd::prelude::*;

verus! {

/// A color of the terminal.
#[derive(Clone, Copy, Debug, PartialEq, Eq, Structural)]
pub enum Color {
    /// Whatever the terminal has.
    Plain,
    Black,
    White,
    Gray,
    DarkGray,
    Red,
    Green,
    Yellow,
    Blue,
    Cyan,
}

/// How a text is drawn.
#[derive(Clone, Copy, Debug, PartialEq, Eq, Structural)]
pub struct Style {
    pub fg: Color,
    pub bg: Color,
    pub bold: bool,
    pub dim: bool,
    pub reversed: bool,
}

/// A color and nothing else.
pub open spec fn colored(fg: Color) -> Style {
    Style { fg, bg: Color::Plain, bold: false, dim: false, reversed: false }
}

/// A color, in bold.
pub open spec fn strong(fg: Color) -> Style {
    Style { bold: true, ..colored(fg) }
}

/// A color, dimmed.
pub open spec fn faint(fg: Color) -> Style {
    Style { dim: true, ..colored(fg) }
}

/// What is chosen: bold, dark on light.
pub open spec fn chosen() -> Style {
    Style { bg: Color::White, ..strong(Color::Black) }
}

impl Style {
    /// A color and nothing else.
    pub fn color(fg: Color) -> (s: Style)
        ensures
            s == colored(fg),
    {
        Style { fg, bg: Color::Plain, bold: false, dim: false, reversed: false }
    }

    /// A color, in bold.
    pub fn bold(fg: Color) -> (s: Style)
        ensures
            s == strong(fg),
    {
        Style { fg, bg: Color::Plain, bold: true, dim: false, reversed: false }
    }

    /// A color, dimmed.
    pub fn dim(fg: Color) -> (s: Style)
        ensures
            s == faint(fg),
    {
        Style { fg, bg: Color::Plain, bold: false, dim: true, reversed: false }
    }

    /// What is chosen.
    pub fn highlight() -> (s: Style)
        ensures
            s == chosen(),
    {
        Style { fg: Color::Black, bg: Color::White, bold: true, dim: false, reversed: false }
    }
}

/// A text and how it is drawn.
#[derive(Debug)]
pub struct Span {
    pub text: String,
    pub style: Style,
}

/// A span, as the contracts speak of it.
pub struct SpanView {
    pub text: Seq<char>,
    pub style: Style,
}

impl View for Span {
    type V = SpanView;

    open spec fn view(&self) -> SpanView {
        SpanView { text: self.text@, style: self.style }
    }
}

/// Spans, as the contracts speak of them.
pub open spec fn span_views(spans: Seq<Span>) -> Seq<SpanView> {
    Seq::new(spans.len(), |i: int| spans[i]@)
}

/// A line of text.
#[derive(Debug)]
pub struct Line {
    pub spans: Vec<Span>,
}

impl View for Line {
    type V = Seq<SpanView>;

    open spec fn view(&self) -> Seq<SpanView> {
        span_views(self.spans@)
    }
}

/// Lines, as the contracts speak of them.
pub open spec fn line_views(lines: Seq<Line>) -> Seq<Seq<SpanView>> {
    Seq::new(lines.len(), |i: int| lines[i]@)
}

/// A line of one span.
pub open spec fn one_span(text: Seq<char>, style: Style) -> Seq<SpanView> {
    seq![SpanView { text, style }]
}

/// A line of two spans.
pub open spec fn two_spans(a: Seq<char>, a_style: Style, b: Seq<char>, b_style: Style) -> Seq<
    SpanView,
> {
    seq![SpanView { text: a, style: a_style }, SpanView { text: b, style: b_style }]
}

impl Line {
    /// A line of one span.
    pub fn of_one(text: String, style: Style) -> (line: Line)
        ensures
            line@ == one_span(text@, style),
    {
        let ghost said = text@;
        let mut spans: Vec<Span> = Vec::new();
        spans.push(Span { text, style });
        assert(span_views(spans@) =~= one_span(said, style));
        Line { spans }
    }

    /// A line of two spans.
    pub fn of_two(a: String, a_style: Style, b: String, b_style: Style) -> (line: Line)
        ensures
            line@ == two_spans(a@, a_style, b@, b_style),
    {
        let ghost first = a@;
        let ghost second = b@;
        let mut spans: Vec<Span> = Vec::new();
        spans.push(Span { text: a, style: a_style });
        spans.push(Span { text: b, style: b_style });
        assert(span_views(spans@) =~= two_spans(first, a_style, second, b_style));
        Line { spans }
    }
}

/// Nothing of a line is lost in how contracts speak of it: as many parts, each
/// with its text and style.
pub proof fn a_line_is_seen_whole(spans: Seq<Span>, lines: Seq<Line>, i: int)
    ensures
        span_views(spans).len() == spans.len(),
        line_views(lines).len() == lines.len(),
        0 <= i < spans.len() ==> span_views(spans)[i].text == spans[i].text@ && span_views(
            spans,
        )[i].style == spans[i].style,
        0 <= i < lines.len() ==> line_views(lines)[i] == lines[i]@,
{
}

/// The styles differ where they are meant to: a name that is chosen stands out
/// from one that is not, and one that is strong or faint from a plain one.
pub proof fn styles_are_told_apart(color: Color)
    ensures
        chosen() != colored(color),
        strong(color) != colored(color),
        faint(color) != colored(color),
        strong(color) != faint(color),
        colored(color).fg == color && strong(color).fg == color && faint(color).fg == color,
{
}

} // verus!
