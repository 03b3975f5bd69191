//! Documents in JSON and what a probe says in them.
use crate::text::text_of;
use vstd::prelude::*;

verus! {

/// A value of a document.
#[verifier::external_type_specification]
#[verifier::external_body]
pub struct ExValue(serde_json::Value);

/// The reason why bytes are not a document.
#[verifier::external_type_specification]
#[verifier::external_body]
pub struct ExError(serde_json::Error);

/// The value that bytes stand for as a document; nothing where they are not one.
pub uninterp spec fn document(bytes: Seq<u8>) -> Option<serde_json::Value>;

/// The member of a value under a key, the null value where there is none.
pub uninterp spec fn member(value: serde_json::Value, key: Seq<char>) -> serde_json::Value;

/// The text of a value; nothing where it is not a text.
pub uninterp spec fn string_in(value: serde_json::Value) -> Option<Seq<char>>;

/// The number of a value; nothing where it is not an unsigned number of 64 bits.
pub uninterp spec fn number_in(value: serde_json::Value) -> Option<u64>;

/// The items of a value; nothing where it is not a list.
pub uninterp spec fn items_in(value: serde_json::Value) -> Option<Seq<serde_json::Value>>;

/// `serde_json::from_slice` into a `serde_json::Value` reads a document, or fails where the bytes
/// are not one. What it makes of given bytes is named, not stated.
#[verifier::external_body]
fn parse(bytes: &[u8]) -> (r: Result<serde_json::Value, serde_json::Error>)
    ensures
        match r {
            Ok(value) => document(bytes@) == Some(value),
            Err(_) => document(bytes@) is None,
        },
{
    serde_json::from_slice(bytes)
}

/// The index of a `serde_json::Value` by a key gives the member under that key, and the null value
/// where the value is no object or has no such member.
#[verifier::external_body]
fn under<'a>(value: &'a serde_json::Value, key: &str) -> (r: &'a serde_json::Value)
    ensures
        *r == member(*value, key@),
{
    &value[key]
}

/// `serde_json::Value::as_str` gives the text of a value that is a text.
#[verifier::external_body]
fn as_text(value: &serde_json::Value) -> (r: Option<&str>)
    ensures
        match r {
            Some(text) => string_in(*value) == Some(text@),
            None => string_in(*value) is None,
        },
{
    value.as_str()
}

/// `serde_json::Value::as_u64` gives the number of a value that is an unsigned number of 64 bits.
#[verifier::external_body]
fn as_number(value: &serde_json::Value) -> (r: Option<u64>)
    ensures
        r == number_in(*value),
{
    value.as_u64()
}

/// `serde_json::Value::as_array` gives the items of a value that is a list.
#[verifier::external_body]
fn as_items(value: &serde_json::Value) -> (r: Option<&Vec<serde_json::Value>>)
    ensures
        match r {
            Some(items) => items_in(*value) == Some(items@),
            None => items_in(*value) is None,
        },
{
    value.as_array()
}

/// Why the output of a probe was of no use.
#[derive(Debug, Clone, Copy, PartialEq, Eq, Structural)]
pub enum ProbeError {
    /// It is not a document.
    Unreadable,
    /// It does not hold a duration.
    NoDuration,
}

impl ProbeError {
    /// The error in words.
    pub open spec fn words(self) -> Seq<char> {
        match self {
            ProbeError::Unreadable => "Failed to parse ffprobe output"@,
            ProbeError::NoDuration => "No duration in ffprobe output"@,
        }
    }

    /// The error in words.
    pub fn message(&self) -> (r: &'static str)
        ensures
            r@ == self.words(),
    {
        match self {
            ProbeError::Unreadable => "Failed to parse ffprobe output",
            ProbeError::NoDuration => "No duration in ffprobe output",
        }
    }
}

/// What a probe says of the duration of a file.
pub open spec fn probed_duration(document: serde_json::Value) -> Option<Seq<char>> {
    string_in(member(member(document, "format"@), "duration"@))
}

/// Reads the duration of a file, in seconds and as text, out of the output of a probe.
pub fn duration_text(output: &[u8]) -> (r: Result<String, ProbeError>)
    ensures
        match r {
            Ok(text) => document(output@) is Some && probed_duration(document(output@)->0) == Some(
                text@,
            ),
            Err(ProbeError::Unreadable) => document(output@) is None,
            Err(ProbeError::NoDuration) => document(output@) is Some && probed_duration(
                document(output@)->0,
            ) is None,
        },
{
    match parse(output) {
        Ok(probe) => match as_text(under(under(&probe, "format"), "duration")) {
            Some(text) => Ok(text.to_owned()),
            None => Err(ProbeError::NoDuration),
        },
        Err(_) => Err(ProbeError::Unreadable),
    }
}

/// What a probe says of a stream.
#[derive(Debug, Clone)]
pub struct ProbedStream {
    pub index: Option<u64>,
    pub codec_type: Option<String>,
    pub codec_name: Option<String>,
}

/// `stream` holds what `value` says of a stream.
pub open spec fn is_probed(stream: ProbedStream, value: serde_json::Value) -> bool {
    &&& stream.index == number_in(member(value, "index"@))
    &&& text_of(stream.codec_type) == string_in(member(value, "codec_type"@))
    &&& text_of(stream.codec_name) == string_in(member(value, "codec_name"@))
}

/// The list of streams in a document; nothing where there is no list.
pub open spec fn streams_in(document: serde_json::Value) -> Option<Seq<serde_json::Value>> {
    items_in(member(document, "streams"@))
}

/// `list` holds what a document says of its streams, in order; nothing where it has no list of
/// them.
pub open spec fn are_probed(list: Seq<ProbedStream>, document: serde_json::Value) -> bool {
    match streams_in(document) {
        Some(values) => list.len() == values.len() && forall|i: int|
            0 <= i < list.len() ==> is_probed(#[trigger] list[i], values[i]),
        None => list.len() == 0,
    }
}

fn text_under(value: &serde_json::Value, key: &str) -> (r: Option<String>)
    ensures
        text_of(r) == string_in(member(*value, key@)),
{
    match as_text(under(value, key)) {
        Some(text) => Some(text.to_owned()),
        None => None,
    }
}

/// Reads the streams of a file out of the output of a probe.
pub fn probed_streams(output: &[u8]) -> (r: Result<Vec<ProbedStream>, ProbeError>)
    ensures
        match r {
            Ok(list) => document(output@) is Some && are_probed(list@, document(output@)->0),
            Err(e) => document(output@) is None && e == ProbeError::Unreadable,
        },
{
    let probe = match parse(output) {
        Ok(probe) => probe,
        Err(_) => {
            return Err(ProbeError::Unreadable);
        },
    };
    let mut list: Vec<ProbedStream> = Vec::new();
    if let Some(values) = as_items(under(&probe, "streams")) {
        for i in 0..values.len()
            invariant
                list@.len() == i,
                forall|j: int| 0 <= j < i ==> is_probed(#[trigger] list@[j], values@[j]),
        {
            list.push(
                ProbedStream {
                    index: as_number(under(&values[i], "index")),
                    codec_type: text_under(&values[i], "codec_type"),
                    codec_name: text_under(&values[i], "codec_name"),
                },
            );
        }
    }
    Ok(list)
}

/// A document lists at least one stream.
pub open spec fn lists_streams(output: Seq<u8>) -> bool {
    match document(output) {
        Some(value) => match streams_in(value) {
            Some(values) => values.len() > 0,
            None => false,
        },
        None => false,
    }
}

/// Whether the output of a probe lists any stream. Output that is not a document lists none.
pub fn has_streams(output: &[u8]) -> (r: bool)
    ensures
        r == lists_streams(output@),
{
    match probed_streams(output) {
        Ok(list) => list.len() > 0,
        Err(_) => false,
    }
}

}
