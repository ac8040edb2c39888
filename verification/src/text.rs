//! Documents as JSON text.
//!
//! Text is read and written by the `json` crate. What it reads is taken
//! apart into a [`Node`], node by node, and what is to be written is put
//! together from one.

use crate::document::{distinct_names, lemma_canonical_fits, Doc, Node};
use crate::value::{strip_zeros, Number};
use json::JsonValue;
use vstd::prelude::*;
use vstd::slice::*;
use vstd::string::*;
use vstd::utf8::encode_utf8;

verus! {

/// `json::JsonValue`: a value of the `json` crate, opaque here.
#[verifier::external_type_specification]
#[verifier::external_body]
pub struct ExJsonValue(json::JsonValue);

/// `json::Error`: what the `json` crate reports, opaque here.
#[verifier::external_type_specification]
#[verifier::external_body]
pub struct ExJsonError(json::Error);

/// The document that a value of the `json` crate holds. A short string and
/// a long one are both strings, and an object lists its entries in the
/// order in which the crate walks them.
pub uninterp spec fn json_shape(v: JsonValue) -> Doc;

/// The document that `json::parse` reads from `text`, where it accepts it.
pub uninterp spec fn json_parse(text: Seq<char>) -> Option<Doc>;

/// The text that `JsonValue::pretty` writes for a value that holds `d`,
/// with `spaces` spaces to a level.
pub uninterp spec fn json_pretty(d: Doc, spaces: u16) -> Seq<char>;

/// The longest run of decimal digits in a numeral that `json::parse` is
/// given.
pub const MAX_DIGITS: usize = 32768;

/// The spaces to a level in the written text.
pub const INDENT: u16 = 4;

/// The deepest nesting that is written out with `INDENT` spaces to a level.
pub const MAX_NESTING: usize = 16383;

/// Whether a byte is a decimal digit.
pub open spec fn is_digit(b: u8) -> bool {
    0x30 <= b <= 0x39
}

/// Where a reader of JSON text stands with regard to string literals.
#[derive(Clone, Copy, Debug, PartialEq, Eq, Structural)]
pub enum Lex {
    /// Outside any string literal.
    Plain,
    /// Inside a string literal.
    Text,
    /// Inside a string literal, just behind a backslash.
    Escape,
}

impl Lex {
    /// Where the reader stands behind the byte `b`: a quotation mark opens
    /// a string literal and closes it, unless a backslash stands before it.
    pub open spec fn spec_step(self, b: u8) -> Lex {
        match self {
            Lex::Plain => if b == 0x22 {
                Lex::Text
            } else {
                Lex::Plain
            },
            Lex::Text => if b == 0x22 {
                Lex::Plain
            } else if b == 0x5c {
                Lex::Escape
            } else {
                Lex::Text
            },
            Lex::Escape => Lex::Text,
        }
    }

    /// Where the reader stands behind the byte `b`.
    pub fn step(self, b: u8) -> (next: Lex)
        ensures
            next == self.spec_step(b),
    {
        match self {
            Lex::Plain => if b == 0x22 {
                Lex::Text
            } else {
                Lex::Plain
            },
            Lex::Text => if b == 0x22 {
                Lex::Plain
            } else if b == 0x5c {
                Lex::Escape
            } else {
                Lex::Text
            },
            Lex::Escape => Lex::Text,
        }
    }
}

/// Where the reader stands behind the first `end` bytes.
pub open spec fn lex_state(bytes: Seq<u8>, end: int) -> Lex
    decreases end,
{
    if 0 < end <= bytes.len() {
        lex_state(bytes, end - 1).spec_step(bytes[end - 1])
    } else {
        Lex::Plain
    }
}

/// The number of digits in a row, outside string literals, that end just
/// before `end`: the digits of a numeral.
pub open spec fn digit_run(bytes: Seq<u8>, end: int) -> nat
    decreases end,
{
    if 0 < end <= bytes.len() && is_digit(bytes[end - 1]) && lex_state(bytes, end - 1)
        == Lex::Plain {
        1 + digit_run(bytes, end - 1)
    } else {
        0
    }
}

/// Whether no numeral has more than `MAX_DIGITS` digits in a row. The
/// digits inside string literals do not count.
pub open spec fn digits_fit(bytes: Seq<u8>) -> bool {
    forall|end: int| 0 <= end <= bytes.len() ==> #[trigger] digit_run(bytes, end) <= MAX_DIGITS
}

/// The document that a text holds: the one that `json::parse` reads from
/// it, unless a numeral in it has more than `MAX_DIGITS` digits in a row.
pub open spec fn document_of(text: Seq<char>) -> Option<Doc> {
    if digits_fit(encode_utf8(text)) {
        json_parse(text)
    } else {
        None
    }
}

/// One level of a `JsonValue`, taken apart.
pub enum Unpacked<'a> {
    Null,
    Bool(bool),
    /// Whether it is not a number; then sign, mantissa and exponent.
    Number(bool, bool, u64, i16),
    Str(String),
    Array(Vec<&'a JsonValue>),
    Object(Vec<(String, &'a JsonValue)>),
}

/// The number that the parts of an unpacked number make.
pub open spec fn number_of(nan: bool, positive: bool, mantissa: u64, exponent: i16) -> Number {
    if nan {
        Number::NaN
    } else {
        Number::Finite { positive, mantissa, exponent }
    }
}

/// The document that an unpacked level holds.
pub open spec fn unpacked_shape(u: Unpacked) -> Doc {
    match u {
        Unpacked::Null => Doc::Null,
        Unpacked::Bool(b) => Doc::Bool(b),
        Unpacked::Number(nan, positive, mantissa, exponent) => Doc::Number(
            number_of(nan, positive, mantissa, exponent),
        ),
        Unpacked::Str(s) => Doc::Str(s@),
        Unpacked::Array(items) => Doc::Array(
            Seq::new(items.len() as nat, |i: int| json_shape(*items[i])),
        ),
        Unpacked::Object(entries) => Doc::Object(
            Seq::new(entries.len() as nat, |i: int| (entries[i].0@, json_shape(*entries[i].1))),
        ),
    }
}

/// The fields that a list of entries makes.
pub open spec fn entries_shape(entries: Seq<(String, JsonValue)>) -> Seq<(Seq<char>, Doc)> {
    Seq::new(entries.len(), |i: int| (entries[i].0@, json_shape(entries[i].1)))
}

/// The documents that a list of values holds.
pub open spec fn items_shape(items: Seq<JsonValue>) -> Seq<Doc> {
    Seq::new(items.len(), |i: int| json_shape(items[i]))
}

/// Calls `json::parse`.
///
/// The contract names the document that the value holds, and says that
/// there is none exactly where the crate reports an error. The crate
/// counts the digits of a numeral's decimal fraction in sixteen bits, so a
/// numeral with a longer run of digits is kept from it. It reads a string
/// literal from its quotation mark to the next one that no backslash
/// stands before, and counts no digit in between.
#[verifier::external_body]
fn parse(text: &str) -> (res: Result<JsonValue, json::Error>)
    requires
        digits_fit(text.spec_bytes()),
    ensures
        match res {
            Ok(v) => json_parse(text@) == Some(json_shape(v)),
            Err(_) => json_parse(text@) is None,
        },
{
    json::parse(text)
}

/// Calls `JsonValue::pretty`.
///
/// The contract names the text. The crate counts the levels, and the spaces
/// before a line, in sixteen bits: a value nested deeper is kept from it.
#[verifier::external_body]
fn pretty(v: &JsonValue, spaces: u16) -> (text: String)
    requires
        spaces >= 1,
        json_shape(*v).fits(u16::MAX as int / spaces as int),
    ensures
        text@ == json_pretty(json_shape(*v), spaces),
{
    v.pretty(spaces)
}

/// Tells the variants of a `JsonValue` apart and hands out what the value
/// holds at its first level: a number by `Number::is_nan` and
/// `Number::as_parts`, an object's entries by `Object::iter`.
///
/// The contract says that this is the document that the value holds, and
/// that an object's entries have distinct keys, as `Object::insert` keeps
/// them.
#[verifier::external_body]
fn unpack<'a>(v: &'a JsonValue) -> (u: Unpacked<'a>)
    ensures
        unpacked_shape(u) == json_shape(*v),
        unpacked_shape(u) matches Doc::Object(fields) ==> distinct_names(fields),
{
    match v {
        JsonValue::Null => Unpacked::Null,
        JsonValue::Boolean(b) => Unpacked::Bool(*b),
        JsonValue::Number(n) => Unpacked::Number(n.is_nan(), n.as_parts().0, n.as_parts().1, n.as_parts().2),
        JsonValue::Short(s) => Unpacked::Str(s.as_str().to_string()),
        JsonValue::String(s) => Unpacked::Str(s.clone()),
        JsonValue::Array(items) => Unpacked::Array(items.iter().collect()),
        JsonValue::Object(o) => Unpacked::Object(o.iter().map(|(k, c)| (k.to_string(), c)).collect()),
    }
}

/// Makes `JsonValue::Null`.
#[verifier::external_body]
fn json_null() -> (v: JsonValue)
    ensures
        json_shape(v) == Doc::Null,
{
    JsonValue::Null
}

/// Makes a `JsonValue::Boolean`.
#[verifier::external_body]
fn json_bool(b: bool) -> (v: JsonValue)
    ensures
        json_shape(v) == Doc::Bool(b),
{
    JsonValue::Boolean(b)
}

/// Makes a `JsonValue::String`.
#[verifier::external_body]
fn json_string(s: String) -> (v: JsonValue)
    ensures
        json_shape(v) == Doc::Str(s@),
{
    JsonValue::String(s)
}

/// Makes a `JsonValue::Number` by `Number::from_parts`, which takes the
/// zeros off the end of a decimal fraction.
#[verifier::external_body]
fn json_number(positive: bool, mantissa: u64, exponent: i16) -> (v: JsonValue)
    ensures
        json_shape(v) == Doc::Number(
            Number::Finite {
                positive,
                mantissa: strip_zeros(mantissa, exponent).0,
                exponent: strip_zeros(mantissa, exponent).1,
            },
        ),
{
    JsonValue::Number(json::number::Number::from_parts(positive, mantissa, exponent))
}

/// Makes a `JsonValue::Number` of `json::number::NAN`.
#[verifier::external_body]
fn json_nan() -> (v: JsonValue)
    ensures
        json_shape(v) == Doc::Number(Number::NaN),
{
    JsonValue::Number(json::number::NAN)
}

/// Makes a `JsonValue::Array` of the values.
#[verifier::external_body]
fn json_array(items: Vec<JsonValue>) -> (v: JsonValue)
    ensures
        json_shape(v) == Doc::Array(items_shape(items@)),
{
    JsonValue::Array(items)
}

/// Makes a `JsonValue::Object` by collecting the entries, which
/// `Object::insert` appends one by one where no key comes twice.
#[verifier::external_body]
fn json_object(entries: Vec<(String, JsonValue)>) -> (v: JsonValue)
    requires
        distinct_names(entries_shape(entries@)),
    ensures
        json_shape(v) == Doc::Object(entries_shape(entries@)),
{
    JsonValue::Object(entries.into_iter().collect())
}

/// Makes the error that `json::parse` reports where a number does not fit.
#[verifier::external_body]
fn limit_error() -> json::Error {
    json::Error::ExceededDepthLimit
}

/// Calls `json::Error::wrong_type`.
#[verifier::external_body]
pub(crate) fn wrong_type(expected: &str) -> json::Error {
    json::Error::wrong_type(expected)
}

/// Whether no numeral in `text` has more than `MAX_DIGITS` digits in a
/// row.
pub fn check_digits(text: &str) -> (ok: bool)
    ensures
        ok == digits_fit(text.spec_bytes()),
{
    let bytes = text.as_bytes();
    let mut state = Lex::Plain;
    let mut run: usize = 0;
    let mut i: usize = 0;
    while i < bytes.len()
        invariant
            i <= bytes.len(),
            bytes@ == text.spec_bytes(),
            state == lex_state(bytes@, i as int),
            run == digit_run(bytes@, i as int),
            run <= MAX_DIGITS,
            forall|end: int| 0 <= end <= i ==> #[trigger] digit_run(bytes@, end) <= MAX_DIGITS,
        decreases bytes.len() - i,
    {
        let b = bytes[i];
        if state == Lex::Plain && 0x30 <= b && b <= 0x39 {
            run = run + 1;
        } else {
            run = 0;
        }
        state = state.step(b);
        i += 1;
        if run > MAX_DIGITS {
            assert(digit_run(bytes@, i as int) > MAX_DIGITS);
            return false;
        }
    }
    true
}

/// Takes a value of the `json` crate apart into a node.
#[verifier::loop_isolation(false)]
pub fn from_json(v: &JsonValue) -> (node: Node)
    ensures
        node@ == json_shape(*v),
        node@.wf(),
    decreases json_shape(*v),
{
    let u = unpack(v);
    match u {
        Unpacked::Null => Node::Null,
        Unpacked::Bool(b) => Node::Bool(b),
        Unpacked::Number(nan, positive, mantissa, exponent) => {
            if nan {
                Node::Number(Number::NaN)
            } else {
                Node::Number(Number::Finite { positive, mantissa, exponent })
            }
        },
        Unpacked::Str(s) => Node::Str(s),
        Unpacked::Array(items) => {
            let ghost shape = json_shape(*v)->Array_0;
            let mut nodes: Vec<Node> = Vec::new();
            let mut i: usize = 0;
            while i < items.len()
                invariant
                    i <= items.len(),
                    nodes.len() == i,
                    forall|j: int| 0 <= j < i ==> (#[trigger] nodes[j])@ == shape[j] && nodes[j]@.wf(),
                decreases items.len() - i,
            {
                assert(shape[i as int] == json_shape(*items[i as int]));
                let node = from_json(items[i]);
                nodes.push(node);
                i += 1;
            }
            let node = Node::Array(nodes);
            assert(node@->Array_0 =~= shape);
            node
        },
        Unpacked::Object(entries) => {
            let ghost shape = json_shape(*v)->Object_0;
            let mut fields: Vec<(String, Node)> = Vec::new();
            let mut i: usize = 0;
            while i < entries.len()
                invariant
                    i <= entries.len(),
                    fields.len() == i,
                    forall|j: int|
                        0 <= j < i ==> (#[trigger] fields[j]).0@ == shape[j].0 && fields[j].1@
                            == shape[j].1 && fields[j].1@.wf(),
                decreases entries.len() - i,
            {
                assert(shape[i as int].1 == json_shape(*entries[i as int].1));
                let node = from_json(entries[i].1);
                fields.push((entries[i].0.clone(), node));
                i += 1;
            }
            let node = Node::Object(fields);
            assert(node@->Object_0 =~= shape);
            node
        },
    }
}

/// Puts a value of the `json` crate together from a node.
#[verifier::loop_isolation(false)]
pub fn to_json(node: &Node) -> (v: JsonValue)
    requires
        node@.wf(),
    ensures
        json_shape(v) == node@.canonical(),
    decreases node,
{
    match node {
        Node::Null => json_null(),
        Node::Bool(b) => json_bool(*b),
        Node::Number(Number::NaN) => json_nan(),
        Node::Number(Number::Finite { positive, mantissa, exponent }) => json_number(
            *positive,
            *mantissa,
            *exponent,
        ),
        Node::Str(s) => json_string(s.clone()),
        Node::Array(items) => {
            let mut values: Vec<JsonValue> = Vec::new();
            let mut i: usize = 0;
            while i < items.len()
                invariant
                    i <= items.len(),
                    values.len() == i,
                    forall|j: int|
                        0 <= j < i ==> json_shape(#[trigger] values[j]) == items[j]@.canonical(),
                decreases items.len() - i,
            {
                assert(node@->Array_0[i as int].wf());
                let v = to_json(&items[i]);
                values.push(v);
                i += 1;
            }
            assert(items_shape(values@) =~= node@.canonical()->Array_0);
            json_array(values)
        },
        Node::Object(fields) => {
            let mut entries: Vec<(String, JsonValue)> = Vec::new();
            let mut i: usize = 0;
            while i < fields.len()
                invariant
                    i <= fields.len(),
                    entries.len() == i,
                    forall|j: int|
                        0 <= j < i ==> (#[trigger] entries[j]).0@ == fields[j].0@ && json_shape(
                            entries[j].1,
                        ) == fields[j].1@.canonical(),
                decreases fields.len() - i,
            {
                assert(node@.fields()[i as int].1.wf());
                let v = to_json(&fields[i].1);
                entries.push((fields[i].0.clone(), v));
                i += 1;
            }
            assert(entries_shape(entries@) =~= node@.canonical()->Object_0);
            assert(distinct_names(entries_shape(entries@))) by {
                assert forall|a: int, b: int|
                    0 <= a < entries.len() && 0 <= b < entries.len() && a != b implies (
                #[trigger] entries_shape(entries@)[a]).0 != (#[trigger] entries_shape(
                    entries@,
                )[b]).0 by {
                    assert(node@.fields()[a].0 != node@.fields()[b].0);
                }
            }
            json_object(entries)
        },
    }
}

/// Reads a document from JSON text.
///
/// There is an error where the text is no JSON, and where a numeral in it
/// has more than `MAX_DIGITS` digits in a row.
pub fn parse_document(text: &str) -> (res: Result<Node, json::Error>)
    ensures
        match res {
            Ok(node) => document_of(text@) == Some(node@) && node@.wf(),
            Err(_) => document_of(text@) is None,
        },
{
    if !check_digits(text) {
        return Err(limit_error());
    }
    match parse(text) {
        Ok(v) => Ok(from_json(&v)),
        Err(e) => Err(e),
    }
}

/// Writes a document as indented JSON text, `INDENT` spaces to a level.
///
/// There is no text where the document is nested deeper than
/// `MAX_NESTING`.
pub fn render(node: &Node) -> (text: Option<String>)
    requires
        node@.wf(),
    ensures
        text is Some <==> node@.fits(MAX_NESTING as int),
        text matches Some(t) ==> t@ == json_pretty(node@.canonical(), INDENT),
{
    if node.fits(MAX_NESTING) {
        let v = to_json(node);
        proof {
            lemma_canonical_fits(node@, MAX_NESTING as int);
        }
        Some(pretty(&v, INDENT))
    } else {
        None
    }
}

} // verus!
