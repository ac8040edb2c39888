//! The typed values that callers read and write.

use vstd::prelude::*;
use vstd::std_specs::convert::FromSpecImpl;
use vstd::slice::slice_to_vec;
use vstd::string::*;

verus! {

/// A number as a document holds it: a sign, a decimal mantissa and a power of
/// ten, or the one value that stands for "not a number".
#[derive(Clone, Copy, Debug, PartialEq, Eq, Structural)]
pub enum Number {
    /// Not a number. It is written out as `null`.
    NaN,
    /// `mantissa * 10^exponent`, negated unless `positive`.
    Finite { positive: bool, mantissa: u64, exponent: i16 },
}

/// The mantissa and exponent without the zeros that end a decimal fraction:
/// while the exponent is negative and the mantissa ends in a zero, the zero
/// goes and the exponent rises by one.
pub open spec fn strip_zeros(mantissa: u64, exponent: i16) -> (u64, i16)
    decreases -exponent,
{
    if exponent < 0 && mantissa % 10 == 0 {
        strip_zeros(mantissa / 10, (exponent + 1) as i16)
    } else {
        (mantissa, exponent)
    }
}

impl Number {
    /// The number as a `u32`, where it is one written without an exponent:
    /// positive, with exponent zero, and small enough.
    pub open spec fn spec_as_u32(self) -> Option<u32> {
        match self {
            Number::Finite { positive: true, mantissa, exponent: 0 } if mantissa <= u32::MAX => Some(
                mantissa as u32,
            ),
            _ => None,
        }
    }

    /// The number as a `u32`, where it is one written without an exponent:
    /// positive, with exponent zero, and small enough.
    pub fn as_u32(self) -> (n: Option<u32>)
        ensures
            n == self.spec_as_u32(),
    {
        match self {
            Number::Finite { positive, mantissa, exponent } => {
                if positive && exponent == 0 && mantissa <= 0xffff_ffff {
                    Some(mantissa as u32)
                } else {
                    None
                }
            },
            Number::NaN => None,
        }
    }

    /// The number as it is written out: the same value, without the zeros
    /// that end its decimal fraction.
    pub open spec fn stripped(self) -> Number {
        match self {
            Number::NaN => Number::NaN,
            Number::Finite { positive, mantissa, exponent } => Number::Finite {
                positive,
                mantissa: strip_zeros(mantissa, exponent).0,
                exponent: strip_zeros(mantissa, exponent).1,
            },
        }
    }
}

/// A setting's value.
#[derive(Clone, Debug, PartialEq)]
pub enum Value {
    String(String),
    Number(Number),
    Bool(bool),
    Bytes(Vec<u8>),
    Null,
}

/// What a [`Value`] is, as contracts speak of it.
pub enum ValueView {
    String(Seq<char>),
    Number(Number),
    Bool(bool),
    Bytes(Seq<u8>),
    Null,
}

impl View for Value {
    type V = ValueView;

    open spec fn view(&self) -> ValueView {
        match self {
            Value::String(s) => ValueView::String(s@),
            Value::Number(n) => ValueView::Number(*n),
            Value::Bool(b) => ValueView::Bool(*b),
            Value::Bytes(b) => ValueView::Bytes(b@),
            Value::Null => ValueView::Null,
        }
    }
}

/// The view of a value that may be missing.
pub open spec fn view_of(v: Option<Value>) -> Option<ValueView> {
    match v {
        Some(v) => Some(v@),
        None => None,
    }
}

impl From<bool> for Value {
    fn from(x: bool) -> (value: Value) {
        Value::Bool(x)
    }
}

impl FromSpecImpl<bool> for Value {
    open spec fn obeys_from_spec() -> bool {
        true
    }

    open spec fn from_spec(x: bool) -> Value {
        Value::Bool(x)
    }
}

impl From<u64> for Value {
    fn from(x: u64) -> (value: Value) {
        Value::Number(Number::Finite { positive: true, mantissa: x, exponent: 0 })
    }
}

impl FromSpecImpl<u64> for Value {
    open spec fn obeys_from_spec() -> bool {
        true
    }

    open spec fn from_spec(x: u64) -> Value {
        Value::Number(Number::Finite { positive: true, mantissa: x, exponent: 0 })
    }
}

/// The distance of `x` from zero.
pub open spec fn magnitude(x: i64) -> u64 {
    if x >= 0 {
        x as u64
    } else {
        (-x) as u64
    }
}

impl From<i64> for Value {
    fn from(x: i64) -> (value: Value) {
        let mantissa: u64 = if x >= 0 {
            x as u64
        } else {
            (-(x + 1)) as u64 + 1
        };
        Value::Number(Number::Finite { positive: x >= 0, mantissa, exponent: 0 })
    }
}

impl FromSpecImpl<i64> for Value {
    open spec fn obeys_from_spec() -> bool {
        true
    }

    open spec fn from_spec(x: i64) -> Value {
        Value::Number(Number::Finite { positive: x >= 0, mantissa: magnitude(x), exponent: 0 })
    }
}

impl From<String> for Value {
    fn from(x: String) -> (value: Value) {
        Value::String(x)
    }
}

impl FromSpecImpl<String> for Value {
    open spec fn obeys_from_spec() -> bool {
        true
    }

    open spec fn from_spec(x: String) -> Value {
        Value::String(x)
    }
}

impl<'a> From<&'a String> for Value {
    fn from(x: &'a String) -> (value: Value) {
        Value::String(x.clone())
    }
}

impl<'a> FromSpecImpl<&'a String> for Value {
    open spec fn obeys_from_spec() -> bool {
        true
    }

    open spec fn from_spec(x: &'a String) -> Value {
        Value::String(*x)
    }
}

impl<'a> From<&'a str> for Value {
    fn from(x: &'a str) -> (value: Value)
        ensures
            value@ == ValueView::String(x@),
    {
        Value::String(String::from_str(x))
    }
}

/// A contract cannot name the string that is made of a borrowed one, so
/// `from` states the view of its result and there is no `from_spec` to obey.
impl<'a> FromSpecImpl<&'a str> for Value {
    open spec fn obeys_from_spec() -> bool {
        false
    }

    open spec fn from_spec(x: &'a str) -> Value {
        Value::Null
    }
}

impl<'a> From<&'a [u8]> for Value {
    fn from(x: &'a [u8]) -> (value: Value)
        ensures
            value@ == ValueView::Bytes(x@),
    {
        Value::Bytes(slice_to_vec(x))
    }
}

/// A contract cannot name the vector that is made of a slice, so `from`
/// states the view of its result and there is no `from_spec` to obey.
impl<'a> FromSpecImpl<&'a [u8]> for Value {
    open spec fn obeys_from_spec() -> bool {
        false
    }

    open spec fn from_spec(x: &'a [u8]) -> Value {
        Value::Null
    }
}

} // verus!
