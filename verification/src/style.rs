//! Text with colours: what a line on the screen is made of.

use vstd::prelude::*;

verus! {

#[derive(Clone, Copy, PartialEq, Eq, Debug)]
pub enum Color {
    Black,
    Blue,
    Cyan,
    DarkGray,
    Green,
    Magenta,
    White,
    Yellow,
}

/// How a stretch of text looks; what is `None` is left as the terminal has it.
#[derive(Clone, Copy, PartialEq, Eq, Debug)]
pub struct Style {
    pub fg: Option<Color>,
    pub bg: Option<Color>,
    pub bold: bool,
}

/// The style that changes nothing.
pub open spec fn plain_style() -> Style {
    Style { fg: None, bg: None, bold: false }
}

/// A foreground colour and nothing else.
pub open spec fn fg_style(c: Color) -> Style {
    Style { fg: Some(c), bg: None, bold: false }
}

/// The style that changes nothing.
pub fn plain() -> (r: Style)
    ensures
        r == plain_style(),
{
    Style { fg: None, bg: None, bold: false }
}

/// A foreground colour and nothing else.
pub fn fg(c: Color) -> (r: Style)
    ensures
        r == fg_style(c),
{
    Style { fg: Some(c), bg: None, bold: false }
}

/// A stretch of text in one style.
#[derive(PartialEq, Eq, Debug)]
pub struct Span {
    pub text: String,
    pub style: Style,
}

impl View for Span {
    type V = (Seq<char>, Style);

    open spec fn view(&self) -> (Seq<char>, Style) {
        (self.text@, self.style)
    }
}

/// The texts and styles of some spans.
pub open spec fn span_views(spans: Seq<Span>) -> Seq<(Seq<char>, Style)> {
    spans.map_values(|s: Span| s@)
}

/// A line of spans with a style of its own beneath them.
#[derive(PartialEq, Eq, Debug)]
pub struct StyledLine {
    pub spans: Vec<Span>,
    pub style: Style,
}

impl View for StyledLine {
    type V = (Seq<(Seq<char>, Style)>, Style);

    open spec fn view(&self) -> (Seq<(Seq<char>, Style)>, Style) {
        (span_views(self.spans@), self.style)
    }
}

/// The texts and styles of some lines.
pub open spec fn line_views(lines: Seq<StyledLine>) -> Seq<(Seq<(Seq<char>, Style)>, Style)> {
    lines.map_values(|l: StyledLine| l@)
}

/// The text that the spans show, one after another.
pub open spec fn shown_text(spans: Seq<(Seq<char>, Style)>) -> Seq<char>
    decreases spans.len(),
{
    if spans.len() == 0 {
        seq![]
    } else {
        shown_text(spans.drop_last()) + spans.last().0
    }
}

pub proof fn lemma_shown_text_concat(a: Seq<(Seq<char>, Style)>, b: Seq<(Seq<char>, Style)>)
    ensures
        shown_text(a + b) == shown_text(a) + shown_text(b),
    decreases b.len(),
{
    if b.len() == 0 {
        assert(a + b =~= a);
        assert(shown_text(a) =~= shown_text(a) + shown_text(b));
    } else {
        lemma_shown_text_concat(a, b.drop_last());
        assert((a + b).drop_last() =~= a + b.drop_last());
        assert(shown_text(a + b) =~= shown_text(a) + shown_text(b));
    }
}

pub proof fn lemma_shown_text_one(text: Seq<char>, style: Style)
    ensures
        shown_text(seq![(text, style)]) == text,
{
    let one = seq![(text, style)];
    assert(one.drop_last() =~= seq![]);
    assert(shown_text(one.drop_last()) =~= seq![]);
    assert(shown_text(one) =~= text);
}

/// The style of the character at `i` of the text that the spans show.
pub open spec fn style_at(spans: Seq<(Seq<char>, Style)>, i: int) -> Style
    decreases spans.len(),
{
    if spans.len() == 0 {
        plain_style()
    } else if i >= shown_text(spans.drop_last()).len() {
        spans.last().1
    } else {
        style_at(spans.drop_last(), i)
    }
}

pub proof fn lemma_style_at_concat(
    a: Seq<(Seq<char>, Style)>,
    b: Seq<(Seq<char>, Style)>,
    i: int,
)
    requires
        0 <= i < shown_text(a + b).len(),
    ensures
        style_at(a + b, i) == if i < shown_text(a).len() {
            style_at(a, i)
        } else {
            style_at(b, i - shown_text(a).len())
        },
    decreases b.len(),
{
    lemma_shown_text_concat(a, b);
    if b.len() == 0 {
        assert(a + b =~= a);
    } else {
        let head = b.drop_last();
        lemma_shown_text_concat(a, head);
        assert((a + b).drop_last() =~= a + head);
        if i < shown_text(a + head).len() {
            lemma_style_at_concat(a, head, i);
        }
    }
}

/// Appends a span.
pub fn push_span(spans: &mut Vec<Span>, text: String, style: Style)
    ensures
        span_views(final(spans)@) == span_views(old(spans)@).push((text@, style)),
{
    spans.push(Span { text, style });
    assert(span_views(spans@) =~= span_views(old(spans)@).push((text@, style)));
}

} // verus!
