//! Styled lines for the screen.
use vstd::prelude::*;

use crate::double::Double;
use crate::lists::{put, views};
use crate::model::Unit;
use crate::output::{Piece, PieceModel};
use crate::text::owned;

verus! {

#[derive(Clone, Copy, Debug, PartialEq, Eq, Structural)]
pub enum Color {
    Reset,
    Black,
    Red,
    Green,
    Yellow,
    Cyan,
    DarkGray,
    LightRed,
}

#[derive(Clone, Copy, Debug, PartialEq, Eq, Structural)]
pub struct Style {
    pub fg: Option<Color>,
    pub bg: Option<Color>,
    pub bold: bool,
    pub dim: bool,
}

/// A part of a line in one style.
#[derive(Clone, Debug)]
pub struct Span {
    pub pieces: Vec<Piece>,
    pub style: Style,
}

/// What a `Span` says.
#[verifier::ext_equal]
pub struct SpanModel {
    pub pieces: Seq<PieceModel>,
    pub style: Style,
}

impl View for Span {
    type V = SpanModel;

    open spec fn view(&self) -> SpanModel {
        SpanModel { pieces: views(self.pieces@), style: self.style }
    }
}

/// A line of the screen.
#[derive(Clone, Debug)]
pub struct Line {
    pub spans: Vec<Span>,
}

impl View for Line {
    type V = Seq<SpanModel>;

    open spec fn view(&self) -> Seq<SpanModel> {
        views(self.spans@)
    }
}

// ---------- styles ----------

pub open spec fn no_style() -> Style {
    Style { fg: None, bg: None, bold: false, dim: false }
}

pub open spec fn in_color(c: Color) -> Style {
    Style { fg: Some(c), bg: None, bold: false, dim: false }
}

pub open spec fn on_color(fg: Color, bg: Color) -> Style {
    Style { fg: Some(fg), bg: Some(bg), bold: false, dim: false }
}

pub fn unstyled() -> (r: Style)
    ensures
        r == no_style(),
{
    Style { fg: None, bg: None, bold: false, dim: false }
}

pub fn colored(c: Color) -> (r: Style)
    ensures
        r == in_color(c),
{
    Style { fg: Some(c), bg: None, bold: false, dim: false }
}

pub fn colored_on(fg: Color, bg: Color) -> (r: Style)
    ensures
        r == on_color(fg, bg),
{
    Style { fg: Some(fg), bg: Some(bg), bold: false, dim: false }
}

// ---------- spans ----------

/// A text in a style.
pub open spec fn styled(s: Seq<char>, style: Style) -> SpanModel {
    SpanModel { pieces: seq![PieceModel::Text(s)], style }
}

/// A text without a style.
pub open spec fn raw(s: Seq<char>) -> SpanModel {
    styled(s, no_style())
}

/// A text that is less important.
pub open spec fn faint(s: Seq<char>) -> SpanModel {
    styled(s, in_color(Color::DarkGray))
}

pub fn text_span(s: String, style: Style) -> (r: Span)
    ensures
        r@ == styled(s@, style),
{
    let mut pieces: Vec<Piece> = Vec::new();
    pieces.push(Piece::Text(s));
    let r = Span { pieces, style };
    assert(r@.pieces =~= seq![PieceModel::Text(s@)]);
    r
}

pub fn raw_span(s: &str) -> (r: Span)
    ensures
        r@ == raw(s@),
{
    text_span(owned(s), unstyled())
}

pub fn dim(s: &str) -> (r: Span)
    ensures
        r@ == faint(s@),
{
    text_span(owned(s), colored(Color::DarkGray))
}

/// Two pieces in a style.
pub open spec fn span2(a: PieceModel, b: PieceModel, style: Style) -> SpanModel {
    SpanModel { pieces: seq![a, b], style }
}

pub fn make_span2(a: Piece, b: Piece, style: Style) -> (r: Span)
    ensures
        r@ == span2(a@, b@, style),
{
    let mut pieces: Vec<Piece> = Vec::new();
    pieces.push(a);
    pieces.push(b);
    let r = Span { pieces, style };
    assert(r@.pieces =~= seq![a@, b@]);
    r
}

// ---------- the title of a panel ----------

/// The title of a panel, with a space on either side.
pub open spec fn panel_title(title: Seq<PieceModel>) -> SpanModel {
    SpanModel {
        pieces: seq![PieceModel::Text(" "@)] + title + seq![PieceModel::Text(" "@)],
        style: in_color(Color::Cyan),
    }
}

pub fn panel(title: Vec<Piece>) -> (r: Span)
    ensures
        r@ == panel_title(views(title@)),
{
    let mut title = title;
    let ghost middle = views(title@);
    let mut pieces: Vec<Piece> = Vec::new();
    put(&mut pieces, Piece::Text(owned(" ")));
    let ghost first = pieces@;
    let ghost rest = title@;
    pieces.append(&mut title);
    assert(views(pieces@) =~= views(first) + views(rest));
    put(&mut pieces, Piece::Text(owned(" ")));
    let r = Span { pieces, style: colored(Color::Cyan) };
    assert(r@.pieces =~= panel_title(middle).pieces);
    r
}

// ---------- what colors tell ----------

pub open spec fn usage_hue(pct: Double) -> Color {
    if pct.below(40) {
        Color::Green
    } else if pct.below(70) {
        Color::Yellow
    } else {
        Color::Red
    }
}

/// The color of a share in use.
pub fn usage_color(pct: Double) -> (r: Color)
    ensures
        r == usage_hue(pct),
{
    if pct.lt_whole(40) {
        Color::Green
    } else if pct.lt_whole(70) {
        Color::Yellow
    } else {
        Color::Red
    }
}

pub open spec fn temp_hue(v: Double) -> Color {
    if v.below(60) {
        Color::Green
    } else if v.below(75) {
        Color::Yellow
    } else if v.below(85) {
        Color::LightRed
    } else {
        Color::Red
    }
}

/// The color of a temperature.
pub fn temp_color(v: Double) -> (r: Color)
    ensures
        r == temp_hue(v),
{
    if v.lt_whole(60) {
        Color::Green
    } else if v.lt_whole(75) {
        Color::Yellow
    } else if v.lt_whole(85) {
        Color::LightRed
    } else {
        Color::Red
    }
}

pub open spec fn reading_hue(unit: Unit, v: Double) -> Color {
    match unit {
        Unit::TempC => temp_hue(v),
        Unit::Watts => if !v.is_nan() && !v.below(25) {
            Color::Yellow
        } else {
            Color::Reset
        },
        Unit::Dbm => if v.above(-60) {
            Color::Green
        } else if v.above(-75) {
            Color::Yellow
        } else {
            Color::Red
        },
        _ => Color::Reset,
    }
}

/// The color of a reading.
pub fn reading_color(unit: Unit, v: Double) -> (r: Color)
    ensures
        r == reading_hue(unit, v),
{
    match unit {
        Unit::TempC => temp_color(v),
        Unit::Watts => if !v.nan() && !v.lt_whole(25) {
            Color::Yellow
        } else {
            Color::Reset
        },
        Unit::Dbm => if v.gt_whole(-60) {
            Color::Green
        } else if v.gt_whole(-75) {
            Color::Yellow
        } else {
            Color::Red
        },
        _ => Color::Reset,
    }
}

} // verus!
