//! Byte sequences in a document.
//!
//! A document has no leaf for bytes. They are kept as a string: the marker
//! `base64:` followed by the bytes in base64. A string that a caller writes
//! and that happens to have this form is read back as bytes.

use crate::document::{Doc, Node};
use crate::value::{view_of, Value, ValueView};
use vstd::prelude::*;
use vstd::string::*;

verus! {

/// The text that `base64::encode` makes of `bytes`.
pub uninterp spec fn base64_text(bytes: Seq<u8>) -> Seq<char>;

/// The bytes that `base64::decode` reads from `text`, where it accepts it.
pub uninterp spec fn base64_bytes(text: Seq<char>) -> Option<Seq<u8>>;

/// Calls `base64::encode`, the standard alphabet with padding.
///
/// The contract names the text and claims that decoding it gives the bytes
/// back. The outside function fails only on an input whose encoded length
/// does not fit in `usize`; no slice is that long.
#[verifier::external_body]
fn encode(bytes: &Vec<u8>) -> (text: String)
    ensures
        text@ == base64_text(bytes@),
        base64_bytes(text@) == Some(bytes@),
{
    base64::encode(bytes)
}

/// Calls `base64::decode`, the standard alphabet with padding.
///
/// The contract names the bytes, and says that there are none exactly where
/// the outside function reports an error. The outside function fails only
/// on an input within three bytes of `usize::MAX`; no text is that long.
#[verifier::external_body]
fn decode(text: &str) -> (bytes: Option<Vec<u8>>)
    ensures
        view_of_bytes(bytes) == base64_bytes(text@),
{
    base64::decode(text).ok()
}

/// The view of bytes that may be missing.
pub open spec fn view_of_bytes(bytes: Option<Vec<u8>>) -> Option<Seq<u8>> {
    match bytes {
        Some(b) => Some(b@),
        None => None,
    }
}

/// The marker that stands before bytes kept as a string.
pub open spec fn marker() -> Seq<char> {
    seq!['b', 'a', 's', 'e', '6', '4', ':']
}

/// The marker that stands before bytes kept as a string.
pub fn base64_prefix() -> (prefix: &'static str)
    ensures
        prefix@ == marker(),
{
    proof {
        reveal_strlit("base64:");
    }
    let prefix = "base64:";
    assert(prefix@ =~= marker());
    prefix
}

/// Whether `s` has the marker in front.
pub open spec fn is_marked(s: Seq<char>) -> bool {
    marker().is_prefix_of(s)
}

/// What follows the marker in a marked string.
pub open spec fn payload(s: Seq<char>) -> Seq<char> {
    s.subrange(marker().len() as int, s.len() as int)
}

/// The value that a string leaf is read as: bytes where it is marked and
/// what follows the marker is base64, else the string itself.
pub open spec fn text_value(s: Seq<char>) -> ValueView {
    if is_marked(s) {
        match base64_bytes(payload(s)) {
            Some(bytes) => ValueView::Bytes(bytes),
            None => ValueView::String(s),
        }
    } else {
        ValueView::String(s)
    }
}

/// The leaf that a value is kept as.
pub open spec fn leaf_of(v: ValueView) -> Doc {
    match v {
        ValueView::String(s) => Doc::Str(s),
        ValueView::Number(n) => Doc::Number(n),
        ValueView::Bool(b) => Doc::Bool(b),
        ValueView::Bytes(bytes) => Doc::Str(marker() + base64_text(bytes)),
        ValueView::Null => Doc::Null,
    }
}

/// The value that a node is read as. Null, an object, an array and a node
/// that is not there are read as no value.
pub open spec fn value_of(d: Option<Doc>) -> Option<ValueView> {
    match d {
        Some(Doc::Str(s)) => Some(text_value(s)),
        Some(Doc::Number(n)) => Some(ValueView::Number(n)),
        Some(Doc::Bool(b)) => Some(ValueView::Bool(b)),
        _ => None,
    }
}

/// Whether a value is read back as it was written: every value but null,
/// and but a string that has the form in which bytes are kept.
pub open spec fn reads_back(v: ValueView) -> bool {
    match v {
        ValueView::Null => false,
        ValueView::String(s) => !(is_marked(s) && base64_bytes(payload(s)) is Some),
        _ => true,
    }
}

/// Whether `s` begins with `prefix`.
pub fn starts_with(s: &str, prefix: &str) -> (yes: bool)
    ensures
        yes == prefix@.is_prefix_of(s@),
{
    let n = prefix.unicode_len();
    if s.unicode_len() < n {
        return false;
    }
    let mut i: usize = 0;
    while i < n
        invariant
            i <= n,
            n == prefix@.len(),
            n <= s@.len(),
            prefix@.subrange(0, i as int) == s@.subrange(0, i as int),
        decreases n - i,
    {
        if s.get_char(i) != prefix.get_char(i) {
            assert(s@.subrange(0, n as int)[i as int] != prefix@[i as int]);
            return false;
        }
        assert(prefix@.subrange(0, i + 1) =~= prefix@.subrange(0, i as int).push(prefix@[i as int]));
        assert(s@.subrange(0, i + 1) =~= s@.subrange(0, i as int).push(s@[i as int]));
        i += 1;
    }
    assert(prefix@.subrange(0, n as int) =~= prefix@);
    true
}

/// The value of a marked string, given what decoding its payload gave.
pub fn marked_value(x: String, decoded: Option<Vec<u8>>) -> (value: Value)
    ensures
        value@ == match decoded {
            Some(bytes) => ValueView::Bytes(bytes@),
            None => ValueView::String(x@),
        },
{
    match decoded {
        Some(bytes) => Value::Bytes(bytes),
        None => Value::String(x),
    }
}

/// Reads a string leaf: as bytes where it has the marker in front and the
/// rest decodes, else as the string it is.
pub fn str_to_value(x: String) -> (value: Value)
    ensures
        value@ == text_value(x@),
{
    let prefix = base64_prefix();
    if starts_with(x.as_str(), prefix) {
        let decoded = decode(x.as_str().substring_char(prefix.unicode_len(), x.as_str().unicode_len()));
        marked_value(x, decoded)
    } else {
        Value::String(x)
    }
}

/// Reads a node as a value.
pub fn node_to_value(node: Option<&Node>) -> (value: Option<Value>)
    ensures
        view_of(value) == value_of(
            match node {
                Some(n) => Some(n@),
                None => None,
            },
        ),
{
    match node {
        Some(Node::Str(s)) => Some(str_to_value(s.clone())),
        Some(Node::Number(n)) => Some(Value::Number(*n)),
        Some(Node::Bool(b)) => Some(Value::Bool(*b)),
        _ => None,
    }
}

/// Makes the leaf that a value is kept as.
pub fn value_to_node(value: Value) -> (node: Node)
    ensures
        node@ == leaf_of(value@),
        node@.wf(),
        reads_back(value@) ==> value_of(Some(node@)) == Some(value@),
{
    match value {
        Value::String(s) => Node::Str(s),
        Value::Number(n) => Node::Number(n),
        Value::Bool(b) => Node::Bool(b),
        Value::Bytes(bytes) => {
            let text = encode(&bytes);
            let kept = String::from_str(base64_prefix()).concat(text.as_str());
            assert(payload(kept@) =~= text@);
            Node::Str(kept)
        },
        Value::Null => Node::Null,
    }
}

} // verus!
