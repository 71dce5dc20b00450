//! Files that hold one short text or one number.
use vstd::prelude::*;

use crate::lists::seen;
use crate::model::{Value, ValueModel};
use crate::numbers::{decimal, decimal_u32, decimal_u64, is_decimal, parse_u32, parse_u64};
use crate::text::{chars, string, trim, trimmed};

verus! {

/// A file's text without the white space round it; `None` where the file
/// could not be read.
pub open spec fn file_text(text: Option<Seq<char>>) -> Option<Seq<char>> {
    match text {
        Some(t) => Some(trimmed(t)),
        None => None,
    }
}

/// A file's text, or nothing where the file could not be read.
pub open spec fn file_text_or_empty(text: Option<Seq<char>>) -> Seq<char> {
    match text {
        Some(t) => trimmed(t),
        None => Seq::empty(),
    }
}

/// The whole number that a file holds.
pub open spec fn file_u64(text: Option<Seq<char>>) -> Option<int> {
    match text {
        Some(t) => decimal_u64(trimmed(t)),
        None => None,
    }
}

/// The whole number that a file holds, if it is not too large for an `u32`.
pub open spec fn file_u32(text: Option<Seq<char>>) -> Option<int> {
    match text {
        Some(t) => decimal_u32(trimmed(t)),
        None => None,
    }
}

/// The decimal fraction that a file holds, as it is written there.
pub open spec fn file_decimal(text: Option<Seq<char>>) -> Option<Seq<char>> {
    match text {
        Some(t) => if is_decimal(trimmed(t)) {
            Some(trimmed(t))
        } else {
            None
        },
        None => None,
    }
}

/// The decimal fraction that a file holds, divided by `divisor`.
pub open spec fn file_value(text: Option<Seq<char>>, divisor: u64) -> Option<ValueModel> {
    match file_decimal(text) {
        Some(t) => Some(ValueModel::Decimal { text: t, divisor }),
        None => None,
    }
}

/// The decimal fraction that a text is, or zero.
pub open spec fn decimal_or_zero(text: Option<Seq<char>>) -> ValueModel {
    match text {
        Some(t) => if is_decimal(t) {
            ValueModel::Decimal { text: t, divisor: 1 }
        } else {
            ValueModel::Count { n: 0, divisor: 1 }
        },
        None => ValueModel::Count { n: 0, divisor: 1 },
    }
}

pub fn read_trimmed(text: Option<&str>) -> (r: Option<String>)
    ensures
        seen(r) == file_text(seen(text)),
{
    match text {
        Some(t) => {
            let t = chars(t);
            Some(string(trim(t.as_slice())))
        },
        None => None,
    }
}

pub fn read_or_empty(text: Option<&str>) -> (r: String)
    ensures
        r@ == file_text_or_empty(seen(text)),
{
    match read_trimmed(text) {
        Some(t) => t,
        None => {
            let empty = String::new();
            assert(empty@ =~= Seq::<char>::empty());
            empty
        },
    }
}

pub fn read_u64(text: Option<&str>) -> (r: Option<u64>)
    ensures
        match r {
            Some(n) => file_u64(seen(text)) == Some(n as int),
            None => file_u64(seen(text)) is None,
        },
{
    match text {
        Some(t) => {
            let t = chars(t);
            parse_u64(trim(t.as_slice()))
        },
        None => None,
    }
}

pub fn read_u32(text: Option<&str>) -> (r: Option<u32>)
    ensures
        match r {
            Some(n) => file_u32(seen(text)) == Some(n as int),
            None => file_u32(seen(text)) is None,
        },
{
    match text {
        Some(t) => {
            let t = chars(t);
            parse_u32(trim(t.as_slice()))
        },
        None => None,
    }
}

pub fn read_decimal(text: Option<&str>) -> (r: Option<String>)
    ensures
        seen(r) == file_decimal(seen(text)),
{
    match text {
        Some(t) => {
            let t = chars(t);
            let t = trim(t.as_slice());
            if decimal(t) {
                Some(string(t))
            } else {
                None
            }
        },
        None => None,
    }
}

pub fn read_value(text: Option<&str>, divisor: u64) -> (r: Option<Value>)
    ensures
        seen(r) == file_value(seen(text), divisor),
{
    match read_decimal(text) {
        Some(text) => Some(Value::Decimal { text, divisor }),
        None => None,
    }
}

pub fn value_or_zero(text: Option<&[char]>) -> (r: Value)
    ensures
        r@ == decimal_or_zero(seen(text)),
{
    if let Some(t) = text {
        if decimal(t) {
            return Value::Decimal { text: string(t), divisor: 1 };
        }
    }
    Value::Count { n: 0, divisor: 1 }
}

/// An optional text as it is borrowed.
pub fn borrowed(text: &Option<String>) -> (r: Option<&str>)
    ensures
        seen(r) == seen(*text),
{
    match text {
        Some(t) => Some(t.as_str()),
        None => None,
    }
}

} // verus!
