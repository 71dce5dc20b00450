//! Lines of output: text, with the numbers in it still to be written out.
use vstd::prelude::*;

use crate::lists::views;
use crate::model::{Fixed, Number};
use crate::text::owned;

verus! {

/// A part of a line.
#[derive(Clone, Debug)]
pub enum Piece {
    Text(String),
    /// The number with its unit behind it, and spaces in front up to `width`.
    Number { value: Fixed, unit: &'static str, width: usize },
    /// The number in the IEEE 754 binary32 format with the given bits, with a
    /// fixed number of decimals or with as many as it takes.
    Single { bits: u32, decimals: Option<u8> },
    /// A bar of `width` cells, filled by as many percent.
    Bar { percent: Number, width: usize },
}

/// What a `Piece` says.
#[verifier::ext_equal]
pub enum PieceModel {
    Text(Seq<char>),
    Number { value: Fixed, unit: Seq<char>, width: usize },
    Single { bits: u32, decimals: Option<u8> },
    Bar { percent: Number, width: usize },
}

impl View for Piece {
    type V = PieceModel;

    open spec fn view(&self) -> PieceModel {
        match self {
            Piece::Text(s) => PieceModel::Text(s@),
            Piece::Number { value, unit, width } => PieceModel::Number {
                value: *value,
                unit: unit@,
                width: *width,
            },
            Piece::Single { bits, decimals } => PieceModel::Single {
                bits: *bits,
                decimals: *decimals,
            },
            Piece::Bar { percent, width } => PieceModel::Bar { percent: *percent, width: *width },
        }
    }
}

/// A line of output.
#[derive(Clone, Debug)]
pub struct Row {
    pub pieces: Vec<Piece>,
}

impl View for Row {
    type V = Seq<PieceModel>;

    open spec fn view(&self) -> Seq<PieceModel> {
        views(self.pieces@)
    }
}

/// A line that is all text.
pub open spec fn plain(s: Seq<char>) -> Seq<PieceModel> {
    seq![PieceModel::Text(s)]
}

pub fn text_row(s: String) -> (r: Row)
    ensures
        r@ == plain(s@),
{
    let mut pieces: Vec<Piece> = Vec::new();
    pieces.push(Piece::Text(s));
    let r = Row { pieces };
    assert(r@ =~= plain(s@));
    r
}

pub fn text(s: &str) -> (r: Piece)
    ensures
        r@ == PieceModel::Text(s@),
{
    Piece::Text(owned(s))
}

} // verus!
