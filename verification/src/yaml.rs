//! What the reader takes from its YAML parser, as plain values.
//!
//! `saphyr_parser` turns text into an event stream and `saphyr` composes the
//! events into documents. Both results are carried here as values of this
//! crate's own types, and each call stands behind one trusted item below.

use crate::value::FloatNum;
use saphyr::{LoadableYamlNode, Scalar, Yaml};
use saphyr_parser::Event;
use vstd::prelude::*;
use vstd::utf8::{decode_utf8, valid_utf8};

verus! {

/// One parser event, as far as the reader's scan tells events apart. A node
/// event carries the parser's anchor id: 0 when the node has no anchor
/// (`&name`), and a positive id when it has one.
#[derive(Debug)]
pub enum ScanEvent {
    /// An alias (`*name`).
    Alias,
    /// A scalar, with its text and anchor id.
    Scalar(String, usize),
    /// The start of a sequence, with its anchor id.
    SequenceStart(usize),
    SequenceEnd,
    /// The start of a mapping, with its anchor id.
    MappingStart(usize),
    MappingEnd,
    /// Stream and document markers, which the scan passes over.
    Other,
}

/// A resolved scalar of a composed document.
#[derive(Debug)]
pub enum ScalarNode {
    Null,
    Boolean(bool),
    Integer(i64),
    FloatingPoint(FloatNum),
    String(String),
}

/// A node of a composed document. Mapping entries are in document order.
#[derive(Debug)]
pub enum YamlNode {
    Value(ScalarNode),
    Sequence(Vec<YamlNode>),
    Mapping(Vec<(YamlNode, YamlNode)>),
    /// A scalar left unresolved.
    Representation,
    /// A tagged node.
    Tagged,
    /// An alias.
    Alias,
    /// A scalar whose contents could not be resolved.
    BadValue,
}

/// The text of a string scalar node, if it is one.
pub open spec fn key_text(n: YamlNode) -> Option<Seq<char>> {
    match n {
        YamlNode::Value(ScalarNode::String(s)) => Some(s@),
        _ => None,
    }
}

/// No mapping anywhere in the node holds two string keys with the same text.
pub open spec fn node_string_keys_distinct(n: YamlNode) -> bool
    decreases n, 0nat,
{
    match n {
        YamlNode::Sequence(items) => items_string_keys_distinct(items@, items@.len()),
        YamlNode::Mapping(entries) => entries_string_keys_distinct(entries@, entries@.len()),
        _ => true,
    }
}

/// No mapping in the first `k` items holds two string keys with the same text.
pub open spec fn items_string_keys_distinct(items: Seq<YamlNode>, k: nat) -> bool
    decreases items, k,
{
    if k == 0 || k > items.len() {
        true
    } else {
        items_string_keys_distinct(items, (k - 1) as nat) && node_string_keys_distinct(items[k - 1])
    }
}

/// Among the first `k` entries no two string keys have the same text, and no
/// mapping in their values holds two such keys.
pub open spec fn entries_string_keys_distinct(entries: Seq<(YamlNode, YamlNode)>, k: nat) -> bool
    decreases entries, k,
{
    if k == 0 || k > entries.len() {
        true
    } else {
        &&& entries_string_keys_distinct(entries, (k - 1) as nat)
        &&& (key_text(entries[k - 1].0) matches Some(t) ==> forall|j: int|
            0 <= j < k - 1 ==> #[trigger] key_text(entries[j].0) != Some(t))
        &&& node_string_keys_distinct(entries[k - 1].1)
    }
}

/// The text of an optional message.
pub open spec fn opt_text(m: Option<String>) -> Option<Seq<char>> {
    match m {
        Some(s) => Some(s@),
        None => None,
    }
}

/// The message `std::str::from_utf8` gives for bytes that are not UTF-8.
pub uninterp spec fn utf8_error_text(bytes: Seq<u8>) -> Seq<char>;

/// The events `saphyr_parser` reads from a text, up to its first error, and
/// that error's message.
pub uninterp spec fn yaml_event_stream(text: Seq<char>) -> (Seq<ScanEvent>, Option<Seq<char>>);

/// The documents `saphyr` composes from a text, or its error message.
pub uninterp spec fn yaml_documents(text: Seq<char>) -> Result<Seq<YamlNode>, Seq<char>>;

/// Calls `std::str::from_utf8`. Claimed: the bytes are accepted exactly when
/// they are valid UTF-8, and then read as the characters they encode; a
/// refusal carries the error's message, which depends on the bytes alone.
#[verifier::external_body]
pub(crate) fn utf8_text(data: &[u8]) -> (r: Result<&str, String>)
    ensures
        r is Ok <==> valid_utf8(data@),
        r matches Ok(s) ==> s@ == decode_utf8(data@),
        r matches Err(m) ==> m@ == utf8_error_text(data@),
{
    match std::str::from_utf8(data) {
        Ok(s) => Ok(s),
        Err(e) => Err(e.to_string()),
    }
}

/// Runs `saphyr_parser::Parser::new_from_str` over `text` and collects its
/// events, each through [`scan_event_of`], until the stream ends or the parser
/// reports an error, which ends the collection. Claimed: the result depends on
/// the text alone.
#[verifier::external_body]
pub(crate) fn read_events(text: &str) -> (r: (Vec<ScanEvent>, Option<String>))
    ensures
        (r.0@, opt_text(r.1)) == yaml_event_stream(text@),
{
    let mut events = Vec::new();
    for item in saphyr_parser::Parser::new_from_str(text) {
        match item {
            Ok((event, _)) => events.push(scan_event_of(event)),
            Err(e) => return (events, Some(e.to_string())),
        }
    }
    (events, None)
}

/// Part of [`read_events`]: names the variant of a `saphyr_parser::Event`,
/// keeping a scalar's text and a node's anchor id; stream and document
/// markers become `Other`.
#[verifier::external_body]
fn scan_event_of(event: Event) -> ScanEvent {
    match event {
        Event::Alias(_) => ScanEvent::Alias,
        Event::Scalar(v, _, anchor, _) => ScanEvent::Scalar(v.to_string(), anchor),
        Event::SequenceStart(anchor, _) => ScanEvent::SequenceStart(anchor),
        Event::SequenceEnd => ScanEvent::SequenceEnd,
        Event::MappingStart(anchor, _) => ScanEvent::MappingStart(anchor),
        Event::MappingEnd => ScanEvent::MappingEnd,
        _ => ScanEvent::Other,
    }
}

/// Calls `saphyr::Yaml::load_from_str` and transcribes each document it
/// returns with [`transcribe`]. Claimed: the result depends on the text alone;
/// and since a `saphyr` mapping is a `LinkedHashMap` that holds each key once,
/// and two string scalars are equal keys exactly when their texts are, no
/// mapping of a returned document holds two string keys with the same text.
#[verifier::external_body]
pub(crate) fn load_documents(text: &str) -> (r: Result<Vec<YamlNode>, String>)
    ensures
        match (r, yaml_documents(text@)) {
            (Ok(docs), Ok(d)) => docs@ == d,
            (Err(m), Err(t)) => m@ == t,
            _ => false,
        },
        r matches Ok(docs) ==> forall|i: int|
            0 <= i < docs@.len() ==> #[trigger] node_string_keys_distinct(docs@[i]),
{
    match Yaml::load_from_str(text) {
        Ok(docs) => Ok(docs.iter().map(transcribe).collect()),
        Err(e) => Err(e.to_string()),
    }
}

/// A parser event of `saphyr_parser`, opaque here.
#[verifier::external_type_specification]
#[verifier::external_body]
pub struct OpaqueEvent<'input>(Event<'input>);

/// A resolved scalar of `saphyr`, opaque here.
#[verifier::external_type_specification]
#[verifier::external_body]
pub struct OpaqueScalar<'input>(Scalar<'input>);

/// A composed node of `saphyr`, opaque here.
#[verifier::external_type_specification]
#[verifier::external_body]
pub struct OpaqueYaml<'input>(Yaml<'input>);

/// Part of [`load_documents`]: rewrites one `saphyr::Yaml` node, variant by
/// variant, as a [`YamlNode`].
#[verifier::external_body]
fn transcribe(y: &Yaml) -> YamlNode {
    match y {
        Yaml::Value(s) => YamlNode::Value(transcribe_scalar(s)),
        Yaml::Sequence(items) => YamlNode::Sequence(items.iter().map(transcribe).collect()),
        Yaml::Mapping(m) => YamlNode::Mapping(
            m.iter().map(|(k, v)| (transcribe(k), transcribe(v))).collect(),
        ),
        Yaml::Representation(..) => YamlNode::Representation,
        Yaml::Tagged(..) => YamlNode::Tagged,
        Yaml::Alias(_) => YamlNode::Alias,
        Yaml::BadValue => YamlNode::BadValue,
    }
}

/// Part of [`load_documents`]: rewrites one `saphyr::Scalar`, variant by
/// variant; a float keeps its bits and its `Display` text.
#[verifier::external_body]
fn transcribe_scalar(s: &Scalar) -> ScalarNode {
    match s {
        Scalar::Null => ScalarNode::Null,
        Scalar::Boolean(b) => ScalarNode::Boolean(*b),
        Scalar::Integer(i) => ScalarNode::Integer(*i),
        Scalar::FloatingPoint(f) => ScalarNode::FloatingPoint(
            FloatNum { bits: f.0.to_bits(), text: f.to_string() },
        ),
        Scalar::String(t) => ScalarNode::String(t.to_string()),
    }
}

} // verus!
