//! Styled lines of text.

use vstd::prelude::*;
use crate::render::Rgb;

verus! {

/// How a text is drawn.
#[derive(Debug, Clone, Copy)]
pub struct Style {
    pub fg: Rgb,
    pub bg: Option<Rgb>,
    pub bold: bool,
}

/// A text in one style.
#[derive(Debug, Clone)]
pub struct Span {
    pub text: String,
    pub style: Style,
}

/// What a span says.
pub struct Words {
    pub text: Seq<char>,
    pub style: Style,
}

impl View for Span {
    type V = Words;

    open spec fn view(&self) -> Words {
        Words { text: self.text@, style: self.style }
    }
}

/// A line made of spans.
#[derive(Debug, Clone)]
pub struct Line {
    pub spans: Vec<Span>,
}

impl View for Line {
    type V = Seq<Words>;

    open spec fn view(&self) -> Seq<Words> {
        self.spans@.map_values(|s: Span| s@)
    }
}

/// What a list of lines says.
pub open spec fn said(lines: Seq<Line>) -> Seq<Seq<Words>> {
    lines.map_values(|l: Line| l@)
}

/// Plain text in a colour.
pub open spec fn plain(fg: Rgb) -> Style {
    Style { fg, bg: None, bold: false }
}

/// Bold text in a colour.
pub open spec fn bold(fg: Rgb) -> Style {
    Style { fg, bg: None, bold: true }
}

/// Bold white text on a colour.
pub open spec fn alarm(bg: Rgb) -> Style {
    Style { fg: (255, 255, 255), bg: Some(bg), bold: true }
}

pub fn plain_style(fg: Rgb) -> (r: Style)
    ensures
        r == plain(fg),
{
    Style { fg, bg: None, bold: false }
}

pub fn bold_style(fg: Rgb) -> (r: Style)
    ensures
        r == bold(fg),
{
    Style { fg, bg: None, bold: true }
}

pub fn alarm_style(bg: Rgb) -> (r: Style)
    ensures
        r == alarm(bg),
{
    Style { fg: (255, 255, 255), bg: Some(bg), bold: true }
}

/// A line of one span.
pub open spec fn one(text: Seq<char>, style: Style) -> Seq<Words> {
    seq![Words { text, style }]
}

/// A line of one span.
pub fn line_of(text: String, style: Style) -> (r: Line)
    ensures
        r@ == one(text@, style),
{
    let mut spans: Vec<Span> = Vec::new();
    spans.push(Span { text, style });
    let r = Line { spans };
    assert(r@ =~= one(text@, style));
    r
}

/// Adds a line of one span.
pub fn push_line(lines: &mut Vec<Line>, text: String, style: Style)
    ensures
        said(final(lines)@) == said(old(lines)@).push(one(text@, style)),
{
    let ghost before = said(lines@);
    let l = line_of(text, style);
    let ghost val = l@;
    lines.push(l);
    assert(said(lines@) =~= before.push(val));
}

/// Adds lines to lines.
pub fn push_lines(lines: &mut Vec<Line>, more: Vec<Line>)
    ensures
        said(final(lines)@) == said(old(lines)@) + said(more@),
{
    let ghost before = lines@;
    let ghost added = more@;
    let mut rest = more;
    lines.append(&mut rest);
    assert(said(lines@) =~= said(before) + said(added));
}

} // verus!
