//! Conversions between property-list values and scalar types.

use vstd::prelude::*;
use crate::plist::{Plist, PValue};
use crate::text::{int_from_text, float_literal, chars_of, parse_i64, is_float_literal};

verus! {

/// The shape a conversion expected.
#[derive(Clone, Copy, Debug, PartialEq, Eq, Structural)]
pub enum ValueKind {
    Integer,
    Float,
    String,
    Dictionary,
    Array,
}

#[derive(Debug)]
pub enum BoolConversionError {
    WrongVariant(Plist),
    BadNumber(i64),
}

/// A value of another shape than the one expected.
#[derive(Debug)]
pub struct VariantError(pub ValueKind, pub Plist);

#[derive(Debug)]
pub enum DownsizeToU16Error {
    WrongVariant(Plist),
    OutOfBounds(i64),
}

#[derive(Debug, PartialEq, Eq)]
pub enum ArrayConversionError<E> {
    WrongVariant,
    Element(E),
}

/// A number as the format holds it: an integer, or a floating-point literal.
#[derive(Clone, Debug, PartialEq, Eq)]
pub enum Number {
    Integer(i64),
    Float(String),
}

/// The integer that a value stands for: an integer, or a string that reads as one.
pub open spec fn integer_of(v: PValue) -> Option<i64> {
    match v {
        PValue::Int(n) => Some(n),
        PValue::Str(s) => int_from_text(s),
        _ => None,
    }
}

pub fn bool_from_plist(plist: Plist) -> (r: Result<bool, BoolConversionError>)
    ensures
        match integer_of(plist@) {
            Some(n) => if n == 0 {
                r == Ok::<bool, BoolConversionError>(false)
            } else if n == 1 {
                r == Ok::<bool, BoolConversionError>(true)
            } else {
                r matches Err(BoolConversionError::BadNumber(m)) && m == n
            },
            None => r matches Err(BoolConversionError::WrongVariant(p)) && p@ == plist@,
        },
{
    let n = match &plist {
        Plist::Integer(n) => *n,
        Plist::String(s) => match parse_i64(s.as_str()) {
            Some(n) => n,
            None => return Err(BoolConversionError::WrongVariant(plist)),
        },
        _ => return Err(BoolConversionError::WrongVariant(plist)),
    };
    if n == 0 {
        Ok(false)
    } else if n == 1 {
        Ok(true)
    } else {
        Err(BoolConversionError::BadNumber(n))
    }
}

pub fn bool_to_plist(b: bool) -> (r: Plist)
    ensures
        r@ == PValue::Int(if b { 1 } else { 0 }),
{
    Plist::Integer(if b { 1 } else { 0 })
}

/// The integer that a value stands for, read without taking the value.
pub fn integer_value(plist: &Plist) -> (r: Option<i64>)
    ensures
        r == integer_of(plist@),
{
    match plist {
        Plist::Integer(n) => Some(*n),
        Plist::String(s) => parse_i64(s.as_str()),
        _ => None,
    }
}

pub fn i64_from_plist(plist: Plist) -> (r: Result<i64, VariantError>)
    ensures
        match integer_of(plist@) {
            Some(n) => r == Ok::<i64, VariantError>(n),
            None => r matches Err(VariantError(k, p)) && k == ValueKind::Integer && p@ == plist@,
        },
{
    match &plist {
        Plist::Integer(n) => Ok(*n),
        Plist::String(s) => match parse_i64(s.as_str()) {
            Some(n) => Ok(n),
            None => Err(VariantError(ValueKind::Integer, plist)),
        },
        _ => Err(VariantError(ValueKind::Integer, plist)),
    }
}

pub fn i64_to_plist(n: i64) -> (r: Plist)
    ensures
        r@ == PValue::Int(n),
{
    Plist::Integer(n)
}

pub fn u16_from_plist(plist: Plist) -> (r: Result<u16, DownsizeToU16Error>)
    ensures
        match integer_of(plist@) {
            Some(n) => if 0 <= n <= 65535 {
                r == Ok::<u16, DownsizeToU16Error>(n as u16)
            } else {
                r matches Err(DownsizeToU16Error::OutOfBounds(m)) && m == n
            },
            None => r matches Err(DownsizeToU16Error::WrongVariant(p)) && p@ == plist@,
        },
{
    let n = match &plist {
        Plist::Integer(n) => *n,
        Plist::String(s) => match parse_i64(s.as_str()) {
            Some(n) => n,
            None => return Err(DownsizeToU16Error::WrongVariant(plist)),
        },
        _ => return Err(DownsizeToU16Error::WrongVariant(plist)),
    };
    if 0 <= n && n <= 65535 {
        Ok(n as u16)
    } else {
        Err(DownsizeToU16Error::OutOfBounds(n))
    }
}

pub fn u16_to_plist(n: u16) -> (r: Plist)
    ensures
        r@ == PValue::Int(n as i64),
{
    Plist::Integer(n as i64)
}

pub fn string_from_plist(plist: Plist) -> (r: Result<String, VariantError>)
    ensures
        match plist@ {
            PValue::Str(s) => r matches Ok(t) && t@ == s,
            _ => r matches Err(VariantError(k, p)) && k == ValueKind::String && p@ == plist@,
        },
{
    match plist {
        Plist::String(s) => Ok(s),
        _ => Err(VariantError(ValueKind::String, plist)),
    }
}

pub fn string_to_plist(s: String) -> (r: Plist)
    ensures
        r@ == PValue::Str(s@),
{
    Plist::String(s)
}

impl Number {
    pub open spec fn view_value(&self) -> PValue {
        match self {
            Number::Integer(n) => PValue::Int(*n),
            Number::Float(t) => PValue::Float(t@),
        }
    }
}

/// The number that a value stands for: an integer, a float, or a string that
/// reads as one of them.
pub open spec fn number_of(v: PValue) -> Option<PValue> {
    match v {
        PValue::Int(n) => Some(PValue::Int(n)),
        PValue::Float(t) => Some(PValue::Float(t)),
        PValue::Str(s) => match int_from_text(s) {
            Some(n) => Some(PValue::Int(n)),
            None => if float_literal(s) {
                Some(PValue::Float(s))
            } else {
                None
            },
        },
        _ => None,
    }
}

/// A number read only from a number value, as coordinates are.
pub open spec fn plain_number_of(v: PValue) -> Option<PValue> {
    match v {
        PValue::Int(n) => Some(PValue::Int(n)),
        PValue::Float(t) => Some(PValue::Float(t)),
        _ => None,
    }
}

pub fn number_from_plist(plist: Plist) -> (r: Result<Number, VariantError>)
    ensures
        match number_of(plist@) {
            Some(v) => r matches Ok(n) && n.view_value() == v,
            None => r matches Err(VariantError(k, p)) && k == ValueKind::Float && p@ == plist@,
        },
{
    match plist {
        Plist::Integer(n) => Ok(Number::Integer(n)),
        Plist::Float(t) => Ok(Number::Float(t)),
        Plist::String(s) => {
            if let Some(n) = parse_i64(s.as_str()) {
                return Ok(Number::Integer(n));
            }
            let c = chars_of(s.as_str());
            if is_float_literal(c.as_slice()) {
                Ok(Number::Float(s))
            } else {
                Err(VariantError(ValueKind::Float, Plist::String(s)))
            }
        },
        _ => Err(VariantError(ValueKind::Float, plist)),
    }
}

/// Reads a number only from an integer or a float value.
pub fn plain_number(plist: Plist) -> (r: Option<Number>)
    ensures
        match plain_number_of(plist@) {
            Some(v) => r matches Some(n) && n.view_value() == v,
            None => r is None,
        },
{
    match plist {
        Plist::Integer(n) => Some(Number::Integer(n)),
        Plist::Float(t) => Some(Number::Float(t)),
        _ => None,
    }
}

pub fn number_to_plist(n: Number) -> (r: Plist)
    ensures
        r@ == n.view_value(),
{
    match n {
        Number::Integer(i) => Plist::Integer(i),
        Number::Float(t) => Plist::Float(t),
    }
}

} // verus!
