//! Reading JSON documents.
//!
//! Documents are parsed and walked by `serde_json`. A parsed document is opaque here; what it
//! holds is told by [`nodes`], which gives for each JSON pointer (RFC 6901) that leads somewhere
//! the node that stands there. Everything else in this module is proved from that.

use serde_json::Value;
use vstd::prelude::*;

use crate::failure::{self, Failure};
use crate::text;

verus! {

/// The parsed documents of `serde_json`.
#[verifier::external_type_specification]
#[verifier::external_body]
pub struct ExValue(serde_json::Value);

/// What stands at one place of a JSON document.
pub enum Node {
    Null,
    Flag(bool),
    /// A whole number from 0 to 2^64 - 1, written without fraction or exponent.
    Unsigned(u64),
    /// Any other number.
    Number,
    Text(Seq<char>),
    /// An array, with its length.
    Array(nat),
    Object,
}

/// A document: the nodes that it has, each under its JSON pointer.
pub type Document = Map<Seq<char>, Node>;

/// What a parsed document holds.
pub uninterp spec fn nodes(value: serde_json::Value) -> Map<Seq<char>, Node>;

/// What `serde_json::from_str` makes of a text: a document, or the message that says what is wrong.
pub uninterp spec fn parsed_text(text: Seq<char>) -> Result<Map<Seq<char>, Node>, Seq<char>>;

/// What `serde_json::from_slice` makes of bytes: a document, or the message that says what is
/// wrong.
pub uninterp spec fn parsed_bytes(bytes: Seq<u8>) -> Result<Map<Seq<char>, Node>, Seq<char>>;

/// Whether a text has the form of a JSON pointer.
pub open spec fn is_pointer(text: Seq<char>) -> bool {
    text.len() == 0 || text[0] == '/'
}

/// The part of a document that hangs below one of its nodes.
pub open spec fn below(document: Document, pointer: Seq<char>) -> Document {
    Map::new(
        |rest: Seq<char>| is_pointer(rest) && document.dom().contains(pointer + rest),
        |rest: Seq<char>| document[pointer + rest],
    )
}

/// The node that a document starts with.
pub open spec fn root(document: Document) -> Node {
    document[Seq::empty()]
}

/// The pointer that leads to an item of an array.
pub open spec fn item_pointer(index: nat) -> Seq<char> {
    seq!['/'] + text::decimal(index)
}

/// The part of a document at a pointer, if it leads somewhere.
pub open spec fn at(document: Document, pointer: Seq<char>) -> Option<Document> {
    if document.dom().contains(pointer) {
        Some(below(document, pointer))
    } else {
        None
    }
}

/// The text at a pointer, if there is one.
pub open spec fn text_at(document: Document, pointer: Seq<char>) -> Option<Seq<char>> {
    match at(document, pointer) {
        Some(part) => match root(part) {
            Node::Text(text) => Some(text),
            _ => None,
        },
        None => None,
    }
}

/// The unsigned integer at a pointer, if there is one.
pub open spec fn unsigned_at(document: Document, pointer: Seq<char>) -> Option<u64> {
    match at(document, pointer) {
        Some(part) => match root(part) {
            Node::Unsigned(value) => Some(value),
            _ => None,
        },
        None => None,
    }
}

/// The truth value at a pointer, if there is one.
pub open spec fn flag_at(document: Document, pointer: Seq<char>) -> Option<bool> {
    match at(document, pointer) {
        Some(part) => match root(part) {
            Node::Flag(value) => Some(value),
            _ => None,
        },
        None => None,
    }
}

/// The items of the array at a pointer, if there is one.
pub open spec fn items_at(document: Document, pointer: Seq<char>) -> Option<Seq<Document>> {
    match at(document, pointer) {
        Some(part) => match root(part) {
            Node::Array(length) => Some(
                Seq::new(length, |i: int| below(part, item_pointer(i as nat))),
            ),
            _ => None,
        },
        None => None,
    }
}

/// The text that has to be at a pointer, or the report that it is missing.
pub open spec fn required_text(document: Document, pointer: Seq<char>) -> Result<
    Seq<char>,
    Seq<char>,
> {
    match text_at(document, pointer) {
        Some(text) => Ok(text),
        None => Err("JSON response missing string at "@ + pointer),
    }
}

/// The 32-bit integer that has to be at a pointer, or the report of what is wrong with it.
pub open spec fn required_u32(document: Document, pointer: Seq<char>) -> Result<u32, Seq<char>> {
    match unsigned_at(document, pointer) {
        Some(value) => if value <= u32::MAX {
            Ok(value as u32)
        } else {
            Err(
                "integer at "@ + pointer
                    + " does not fit in u32: out of range integral type conversion attempted"@,
            )
        },
        None => Err("JSON response missing unsigned integer at "@ + pointer),
    }
}

/// What is read from every part in turn, or the first report of one that cannot be read.
pub open spec fn read_all<T>(
    parts: Seq<Document>,
    read: spec_fn(Document) -> Result<T, Seq<char>>,
) -> Result<Seq<T>, Seq<char>>
    decreases parts.len(),
{
    if parts.len() == 0 {
        Ok(Seq::empty())
    } else {
        match read_all(parts.drop_last(), read) {
            Ok(done) => match read(parts.last()) {
                Ok(value) => Ok(done.push(value)),
                Err(fault) => Err(fault),
            },
            Err(fault) => Err(fault),
        }
    }
}

/// What the parsed values of a list hold, one by one.
pub open spec fn documents(values: Seq<Value>) -> Seq<Document> {
    values.map_values(|value: Value| nodes(value))
}

/// `serde_json::Value::pointer` finds the node that the pointer names, with all that hangs below
/// it, and finds nothing where the document has no such node.
pub assume_specification<'a>[ serde_json::Value::pointer ](
    value: &'a serde_json::Value,
    pointer: &str,
) -> (found: Option<&'a serde_json::Value>)
    ensures
        match found {
            Some(node) => at(nodes(*value), pointer@) == Some(nodes(*node)),
            None => at(nodes(*value), pointer@) is None,
        },
;

/// `serde_json::Value::as_str` gives the text of a document that is a text.
pub assume_specification[ serde_json::Value::as_str ](value: &serde_json::Value) -> (found: Option<
    &str,
>)
    ensures
        match found {
            Some(text) => root(nodes(*value)) == Node::Text(text@),
            None => !(root(nodes(*value)) is Text),
        },
;

/// `serde_json::Value::as_u64` gives the number of a document that is a whole number within
/// 64 bits.
pub assume_specification[ serde_json::Value::as_u64 ](value: &serde_json::Value) -> (number: Option<
    u64,
>)
    ensures
        match number {
            Some(number) => root(nodes(*value)) == Node::Unsigned(number),
            None => !(root(nodes(*value)) is Unsigned),
        },
;

/// `serde_json::Value::as_bool` gives the truth value of a document that is one.
pub assume_specification[ serde_json::Value::as_bool ](value: &serde_json::Value) -> (flag: Option<
    bool,
>)
    ensures
        match flag {
            Some(flag) => root(nodes(*value)) == Node::Flag(flag),
            None => !(root(nodes(*value)) is Flag),
        },
;

/// `serde_json::Value::as_array` gives the items of a document that is an array, each with what
/// hangs below its index.
pub assume_specification[ serde_json::Value::as_array ](value: &serde_json::Value) -> (items:
    Option<&Vec<serde_json::Value>>)
    ensures
        match items {
            Some(items) => {
                &&& root(nodes(*value)) == Node::Array(items@.len())
                &&& forall|i: int|
                    0 <= i < items@.len() ==> nodes(#[trigger] items@[i]) == below(
                        nodes(*value),
                        item_pointer(i as nat),
                    )
            },
            None => !(root(nodes(*value)) is Array),
        },
;

/// Calls `serde_json::from_str`, whose result is named by [`parsed_text`]. An error is handed on as
/// its message.
#[verifier::external_body]
pub(crate) fn parse_text(text: &str) -> (parsed: Result<serde_json::Value, String>)
    ensures
        match parsed {
            Ok(value) => parsed_text(text@) == Ok::<Document, Seq<char>>(nodes(value)),
            Err(reason) => parsed_text(text@) == Err::<Document, Seq<char>>(reason@),
        },
{
    match serde_json::from_str(text) {
        Ok(value) => Ok(value),
        Err(error) => Err(error.to_string()),
    }
}

/// Calls `serde_json::from_slice`, whose result is named by [`parsed_bytes`]. An error is handed on
/// as its message.
#[verifier::external_body]
pub(crate) fn parse_bytes(bytes: &[u8]) -> (parsed: Result<serde_json::Value, String>)
    ensures
        match parsed {
            Ok(value) => parsed_bytes(bytes@) == Ok::<Document, Seq<char>>(nodes(value)),
            Err(reason) => parsed_bytes(bytes@) == Err::<Document, Seq<char>>(reason@),
        },
{
    match serde_json::from_slice(bytes) {
        Ok(value) => Ok(value),
        Err(error) => Err(error.to_string()),
    }
}

/// Find the text at a pointer.
pub fn find_text<'a>(value: &'a Value, pointer: &str) -> (text: Option<&'a str>)
    ensures
        match text {
            Some(text) => text_at(nodes(*value), pointer@) == Some(text@),
            None => text_at(nodes(*value), pointer@) is None,
        },
{
    match value.pointer(pointer) {
        Some(node) => node.as_str(),
        None => None,
    }
}

/// Find the unsigned integer at a pointer.
pub fn find_unsigned(value: &Value, pointer: &str) -> (number: Option<u64>)
    ensures
        number == unsigned_at(nodes(*value), pointer@),
{
    match value.pointer(pointer) {
        Some(node) => node.as_u64(),
        None => None,
    }
}

/// Find the truth value at a pointer.
pub fn find_flag(value: &Value, pointer: &str) -> (flag: Option<bool>)
    ensures
        flag == flag_at(nodes(*value), pointer@),
{
    match value.pointer(pointer) {
        Some(node) => node.as_bool(),
        None => None,
    }
}

/// Find the items of the array at a pointer.
pub fn find_items<'a>(value: &'a Value, pointer: &str) -> (items: Option<&'a Vec<Value>>)
    ensures
        match items {
            Some(items) => items_at(nodes(*value), pointer@) == Some(documents(items@)),
            None => items_at(nodes(*value), pointer@) is None,
        },
{
    match value.pointer(pointer) {
        Some(node) => {
            let items: Option<&'a Vec<Value>> = node.as_array();
            proof {
                if let Some(list) = items {
                    assert(items_at(nodes(*value), pointer@)->0 =~= documents(list@));
                }
            }
            items
        },
        None => None,
    }
}

/// The text at a pointer of a reply that has to have one there.
pub fn string_at<'a>(value: &'a Value, pointer: &str) -> (text: Result<&'a str, Failure>)
    ensures
        match text {
            Ok(text) => required_text(nodes(*value), pointer@) == Ok::<Seq<char>, Seq<char>>(text@),
            Err(failure) => required_text(nodes(*value), pointer@) == Err::<Seq<char>, Seq<char>>(
                failure::report(failure),
            ),
        },
{
    match find_text(value, pointer) {
        Some(text) => Ok(text),
        None => Err(Failure::NoString { pointer: pointer.to_owned() }),
    }
}

/// The 32-bit integer at a pointer of a reply that has to have one there.
pub fn u32_at(value: &Value, pointer: &str) -> (number: Result<u32, Failure>)
    ensures
        match number {
            Ok(number) => required_u32(nodes(*value), pointer@) == Ok::<u32, Seq<char>>(number),
            Err(failure) => required_u32(nodes(*value), pointer@) == Err::<u32, Seq<char>>(
                failure::report(failure),
            ),
        },
{
    match find_unsigned(value, pointer) {
        Some(number) => if number <= u32::MAX as u64 {
            Ok(number as u32)
        } else {
            Err(Failure::IntegerTooLarge { pointer: pointer.to_owned() })
        },
        None => Err(Failure::NoInteger { pointer: pointer.to_owned() }),
    }
}

} // verus!
