//! Terminal colors and span styles, as plain values the renderer maps onto
//! its own widgets.

use vstd::prelude::*;

verus! {

/// A terminal color.
#[derive(Debug, Clone, Copy, PartialEq, Eq, Hash, Structural)]
pub enum Color {
    Reset,
    Black,
    Red,
    Green,
    Yellow,
    Blue,
    Magenta,
    Cyan,
    Gray,
    DarkGray,
    LightRed,
    LightGreen,
    LightYellow,
    LightBlue,
    LightMagenta,
    LightCyan,
    White,
    Rgb(u8, u8, u8),
    Indexed(u8),
}

/// How a run of text is drawn: foreground, background (absent: the
/// terminal's own), and whether it is bold.
#[derive(Debug, Clone, Copy, PartialEq, Eq, Structural)]
pub struct SpanStyle {
    pub fg: Option<Color>,
    pub bg: Option<Color>,
    pub bold: bool,
}

/// A run of text with one style.
#[derive(Debug, Clone)]
pub struct StyledSpan {
    pub content: String,
    pub style: SpanStyle,
}

/// The value of a styled span.
pub struct SpanView {
    pub content: Seq<char>,
    pub style: SpanStyle,
}

impl View for StyledSpan {
    type V = SpanView;

    open spec fn view(&self) -> SpanView {
        SpanView { content: self.content@, style: self.style }
    }
}

/// The values of a sequence of spans.
pub open spec fn span_views(v: Seq<StyledSpan>) -> Seq<SpanView> {
    v.map_values(|s: StyledSpan| s@)
}

/// The text of a sequence of spans, joined.
pub open spec fn spans_text(v: Seq<SpanView>) -> Seq<char> {
    v.map_values(|s: SpanView| s.content).flatten()
}

/// A style with just a foreground.
pub open spec fn fg_style(c: Color) -> SpanStyle {
    SpanStyle { fg: Some(c), bg: None, bold: false }
}

/// A style with just a foreground.
pub fn fg(c: Color) -> (s: SpanStyle)
    ensures
        s == fg_style(c),
{
    SpanStyle { fg: Some(c), bg: None, bold: false }
}

/// A style with a foreground and a background.
pub fn fg_bg(f: Color, b: Color) -> (s: SpanStyle)
    ensures
        s == (SpanStyle { fg: Some(f), bg: Some(b), bold: false }),
{
    SpanStyle { fg: Some(f), bg: Some(b), bold: false }
}

} // verus!
