//! Styled text: what is shown, before a terminal turns it into escape sequences.

use vstd::prelude::*;

verus! {

/// A colour of the terminal.
#[derive(Clone, Copy, Debug, PartialEq, Eq, Structural)]
pub enum Color {
    Red,
    Green,
    Yellow,
    Blue,
    Cyan,
    Gray,
    DarkGray,
    Rgb(u8, u8, u8),
}

/// How a piece of text looks.
#[derive(Clone, Copy, Debug, PartialEq, Eq, Structural)]
pub struct Style {
    pub fg: Option<Color>,
    pub bg: Option<Color>,
    pub bold: bool,
    pub dimmed: bool,
}

/// A piece of text in one style.
#[derive(Debug)]
pub struct Span {
    pub text: String,
    pub style: Style,
}

/// A line of text made of spans.
#[derive(Debug)]
pub struct Line {
    pub spans: Vec<Span>,
}

/// The style of text without any.
pub open spec fn unstyled() -> Style {
    Style { fg: None, bg: None, bold: false, dimmed: false }
}

/// The style of coloured text.
pub open spec fn colored(color: Color) -> Style {
    Style { fg: Some(color), bg: None, bold: false, dimmed: false }
}

/// A style in bold.
pub open spec fn bold(style: Style) -> Style {
    Style { bold: true, ..style }
}

/// The style of faint text.
pub open spec fn faint() -> Style {
    Style { fg: None, bg: None, bold: false, dimmed: true }
}

impl View for Span {
    type V = (Seq<char>, Style);

    open spec fn view(&self) -> (Seq<char>, Style) {
        (self.text@, self.style)
    }
}

impl View for Line {
    type V = Seq<(Seq<char>, Style)>;

    open spec fn view(&self) -> Seq<(Seq<char>, Style)> {
        self.spans@.map_values(|s: Span| s@)
    }
}

/// What the lines show.
pub open spec fn shown(lines: Seq<Line>) -> Seq<Seq<(Seq<char>, Style)>> {
    lines.map_values(|l: Line| l@)
}

/// A span without style.
pub open spec fn plain(text: Seq<char>) -> (Seq<char>, Style) {
    (text, unstyled())
}

/// Lines show the texts of their spans in order, each in its style.
pub proof fn law_lines_show_their_spans(lines: Seq<Line>, i: int, k: int)
    requires
        0 <= i < lines.len(),
        0 <= k < lines[i].spans@.len(),
    ensures
        shown(lines).len() == lines.len(),
        shown(lines)[i].len() == lines[i].spans@.len(),
        shown(lines)[i][k].0 == lines[i].spans@[k].text@,
        shown(lines)[i][k].1 == lines[i].spans@[k].style,
{
}

/// Text has no look of its own until it is given a colour or an emphasis; being in bold changes
/// nothing else.
pub proof fn law_styles(text: Seq<char>, color: Color, style: Style)
    ensures
        plain(text) == (text, Style { fg: None, bg: None, bold: false, dimmed: false }),
        colored(color) == (Style { fg: Some(color), bg: None, bold: false, dimmed: false }),
        faint() == (Style { fg: None, bg: None, bold: false, dimmed: true }),
        bold(style).bold,
        bold(style).fg == style.fg,
        bold(style).bg == style.bg,
        bold(style).dimmed == style.dimmed,
{
}

impl Style {
    /// No colour and no emphasis.
    pub fn none() -> (s: Style)
        ensures
            s == unstyled(),
    {
        Style { fg: None, bg: None, bold: false, dimmed: false }
    }

    /// Text in a colour.
    pub fn fg(color: Color) -> (s: Style)
        ensures
            s == colored(color),
    {
        Style { fg: Some(color), bg: None, bold: false, dimmed: false }
    }

    /// The same style in bold.
    pub fn in_bold(self) -> (s: Style)
        ensures
            s == bold(self),
    {
        Style { fg: self.fg, bg: self.bg, bold: true, dimmed: self.dimmed }
    }

    /// Faint text.
    pub fn dim() -> (s: Style)
        ensures
            s == faint(),
    {
        Style { fg: None, bg: None, bold: false, dimmed: true }
    }
}

impl Line {
    /// A line without spans.
    pub fn new() -> (l: Line)
        ensures
            l@ == Seq::<(Seq<char>, Style)>::empty(),
    {
        Line { spans: Vec::new() }
    }

    /// Adds a piece of text at the end.
    pub fn push(&mut self, text: String, style: Style)
        ensures
            final(self)@ == old(self)@.push((text@, style)),
    {
        self.spans.push(Span { text, style });
        assert(self@ =~= old(self)@.push((text@, style)));
    }

    /// Adds a piece of text without style at the end.
    pub fn push_plain(&mut self, text: &str)
        ensures
            final(self)@ == old(self)@.push(plain(text@)),
    {
        self.push(text.to_string(), Style::none());
    }
}

} // verus!
