//! Styled text: what a panel shows, apart from how a terminal paints it.

use crate::text::{left_aligned, push_left_aligned};
use crate::top::state::Reading;
use vstd::prelude::*;

verus! {

/// A colour of the dashboard's palette.
#[derive(Clone, Copy, PartialEq, Eq, Debug, Structural)]
pub enum Tone {
    Cyan,
    Pink,
    Green,
    Yellow,
    Red,
    Dim,
    Text,
}

/// Part of a span: text, or a reading to be shown with so many decimals.
#[derive(Debug)]
pub enum Piece {
    Text(String),
    /// With one decimal.
    Tenths(Reading),
    /// With one decimal, filled up with spaces before it to six characters.
    PaddedTenths(Reading),
    /// Without decimals.
    Whole(Reading),
}

pub enum PieceView {
    Text(Seq<char>),
    Tenths(Reading),
    PaddedTenths(Reading),
    Whole(Reading),
}

impl View for Piece {
    type V = PieceView;

    open spec fn view(&self) -> PieceView {
        match self {
            Piece::Text(text) => PieceView::Text(text@),
            Piece::Tenths(reading) => PieceView::Tenths(*reading),
            Piece::PaddedTenths(reading) => PieceView::PaddedTenths(*reading),
            Piece::Whole(reading) => PieceView::Whole(*reading),
        }
    }
}

/// A stretch of a line in one style.
#[derive(Debug)]
pub struct Span {
    pub pieces: Vec<Piece>,
    pub tone: Tone,
    pub bold: bool,
}

pub struct SpanView {
    pub pieces: Seq<PieceView>,
    pub tone: Tone,
    pub bold: bool,
}

impl View for Span {
    type V = SpanView;

    open spec fn view(&self) -> SpanView {
        SpanView { pieces: pieces_view(self.pieces@), tone: self.tone, bold: self.bold }
    }
}

pub open spec fn pieces_view(pieces: Seq<Piece>) -> Seq<PieceView> {
    Seq::new(pieces.len(), |i: int| pieces[i]@)
}

/// One line of a panel, or one row of a table.
#[derive(Debug)]
pub struct Line {
    pub spans: Vec<Span>,
}

impl View for Line {
    type V = Seq<SpanView>;

    open spec fn view(&self) -> Seq<SpanView> {
        Seq::new(self.spans@.len(), |i: int| self.spans@[i]@)
    }
}

pub open spec fn lines_view(lines: Seq<Line>) -> Seq<Seq<SpanView>> {
    Seq::new(lines.len(), |i: int| lines[i]@)
}

/// Text in a style.
pub open spec fn styled(text: Seq<char>, tone: Tone, bold: bool) -> SpanView {
    SpanView { pieces: seq![PieceView::Text(text)], tone, bold }
}

/// A line's label: dim, and as wide as every other.
pub open spec fn labelled(text: Seq<char>) -> SpanView {
    styled(left_aligned(text, 11), Tone::Dim, false)
}

/// A value that stands out.
pub open spec fn valued(text: Seq<char>, tone: Tone) -> SpanView {
    styled(text, tone, true)
}

pub open spec fn plainly(text: Seq<char>) -> SpanView {
    styled(text, Tone::Text, false)
}

pub open spec fn dimly(text: Seq<char>) -> SpanView {
    styled(text, Tone::Dim, false)
}

/// Plain text with readings in it.
pub open spec fn mixed(pieces: Seq<PieceView>) -> SpanView {
    SpanView { pieces, tone: Tone::Text, bold: false }
}

/// Text in a style.
pub fn style(text: String, tone: Tone, bold: bool) -> (r: Span)
    ensures
        r@ == styled(text@, tone, bold),
{
    let ghost chars = text@;
    let mut pieces: Vec<Piece> = Vec::new();
    pieces.push(Piece::Text(text));
    assert(pieces_view(pieces@) =~= seq![PieceView::Text(chars)]);
    Span { pieces, tone, bold }
}

pub fn label(text: &str) -> (r: Span)
    ensures
        r@ == labelled(text@),
{
    let mut out = String::new();
    push_left_aligned(&mut out, text, 11);
    assert(out@ =~= left_aligned(text@, 11));
    style(out, Tone::Dim, false)
}

pub fn val(text: String, tone: Tone) -> (r: Span)
    ensures
        r@ == valued(text@, tone),
{
    style(text, tone, true)
}

pub fn plain(text: String) -> (r: Span)
    ensures
        r@ == plainly(text@),
{
    style(text, Tone::Text, false)
}

pub fn dim(text: String) -> (r: Span)
    ensures
        r@ == dimly(text@),
{
    style(text, Tone::Dim, false)
}

/// A piece of fixed text.
pub fn piece(text: &str) -> (r: Piece)
    ensures
        r@ == PieceView::Text(text@),
{
    Piece::Text(text.to_owned())
}

/// Plain text with readings in it.
pub fn mix(pieces: Vec<Piece>) -> (r: Span)
    ensures
        r@ == mixed(pieces_view(pieces@)),
{
    Span { pieces, tone: Tone::Text, bold: false }
}

pub fn line_of_one(a: Span) -> (r: Line)
    ensures
        r@ == seq![a@],
{
    let ghost view = seq![a@];
    let mut spans: Vec<Span> = Vec::new();
    spans.push(a);
    let line = Line { spans };
    assert(line@ =~= view);
    line
}

pub fn line_of_two(a: Span, b: Span) -> (r: Line)
    ensures
        r@ == seq![a@, b@],
{
    let ghost view = seq![a@, b@];
    let mut spans: Vec<Span> = Vec::new();
    spans.push(a);
    spans.push(b);
    let line = Line { spans };
    assert(line@ =~= view);
    line
}

pub fn line_of_three(a: Span, b: Span, c: Span) -> (r: Line)
    ensures
        r@ == seq![a@, b@, c@],
{
    let ghost view = seq![a@, b@, c@];
    let mut spans: Vec<Span> = Vec::new();
    spans.push(a);
    spans.push(b);
    spans.push(c);
    let line = Line { spans };
    assert(line@ =~= view);
    line
}

/// Append a line.
pub fn add_line(lines: &mut Vec<Line>, line: Line)
    ensures
        lines_view(final(lines)@) == lines_view(old(lines)@).push(line@),
{
    let ghost view = line@;
    lines.push(line);
    assert(lines_view(lines@) =~= lines_view(old(lines)@).push(view));
}

/// A titled panel of lines.
#[derive(Debug)]
pub struct Panel {
    pub title: String,
    pub accent: Tone,
    pub lines: Vec<Line>,
}

pub struct PanelView {
    pub title: Seq<char>,
    pub accent: Tone,
    pub lines: Seq<Seq<SpanView>>,
}

impl View for Panel {
    type V = PanelView;

    open spec fn view(&self) -> PanelView {
        PanelView { title: self.title@, accent: self.accent, lines: lines_view(self.lines@) }
    }
}

} // verus!
