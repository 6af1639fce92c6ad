//! Strict document reading: bytes to an order-preserving [`Value`].

use crate::error::{malformed, Error, ErrorView, Stage};
use crate::rule;
use crate::scan::{is_anchored, not_yaml_error, scan_input, scan_verdict};
use crate::text::{decimal, decimal_text};
use crate::yaml::{ScanEvent, key_text, node_string_keys_distinct, items_string_keys_distinct, entries_string_keys_distinct, load_documents, utf8_text, utf8_error_text, yaml_documents, yaml_event_stream, ScalarNode, YamlNode};
pub use crate::value::{FloatNum, Mapping, Value};
use crate::value::{lemma_members_keys_distinct_prefix, lemma_values_keys_distinct_prefix, members_keys_distinct, value_keys_distinct, values_keys_distinct};
use vstd::prelude::*;
use vstd::utf8::{decode_utf8, valid_utf8};

verus! {

/// Why a composed node cannot be read.
pub enum Fault {
    /// A mapping key that is not a string.
    KeyType,
    /// A node that is not a resolved scalar, a sequence or a mapping.
    TreeOnly,
}

/// The first fault of a node, in document order.
pub open spec fn node_fault(n: YamlNode) -> Option<Fault>
    decreases n, 0nat,
{
    match n {
        YamlNode::Value(_) => None,
        YamlNode::Sequence(items) => items_fault(items@, items@.len()),
        YamlNode::Mapping(entries) => entries_fault(entries@, entries@.len()),
        _ => Some(Fault::TreeOnly),
    }
}

/// The first fault among the first `k` items.
pub open spec fn items_fault(items: Seq<YamlNode>, k: nat) -> Option<Fault>
    decreases items, k,
{
    if k == 0 || k > items.len() {
        None
    } else {
        match items_fault(items, (k - 1) as nat) {
            Some(f) => Some(f),
            None => node_fault(items[k - 1]),
        }
    }
}

/// The key is a string scalar.
pub open spec fn is_string_key(n: YamlNode) -> bool {
    n matches YamlNode::Value(ScalarNode::String(_))
}

/// The first fault among the first `k` entries: each key is looked at before
/// its value.
pub open spec fn entries_fault(entries: Seq<(YamlNode, YamlNode)>, k: nat) -> Option<Fault>
    decreases entries, k,
{
    if k == 0 || k > entries.len() {
        None
    } else {
        match entries_fault(entries, (k - 1) as nat) {
            Some(f) => Some(f),
            None => if !is_string_key(entries[k - 1].0) {
                Some(Fault::KeyType)
            } else {
                node_fault(entries[k - 1].1)
            },
        }
    }
}

/// The value a resolved scalar reads as.
pub open spec fn scalar_value(s: ScalarNode) -> Value {
    match s {
        ScalarNode::Null => Value::Null,
        ScalarNode::Boolean(b) => Value::Bool(b),
        ScalarNode::Integer(i) => Value::Int(i),
        ScalarNode::FloatingPoint(f) => Value::Float(f),
        ScalarNode::String(t) => Value::Str(t),
    }
}

/// `v` is what node `n` reads as: scalars as their values, sequences item by
/// item, mappings entry by entry in document order with the key's string.
pub open spec fn reads_as(n: YamlNode, v: Value) -> bool
    decreases n, 1nat,
{
    match n {
        YamlNode::Value(s) => v == scalar_value(s),
        YamlNode::Sequence(items) => match v {
            Value::Sequence(vs) => vs@.len() == items@.len() && items_read_as(
                items@,
                vs@,
                items@.len(),
            ),
            _ => false,
        },
        YamlNode::Mapping(entries) => match v {
            Value::Mapping(m) => m@.len() == entries@.len() && entries_read_as(
                entries@,
                m@,
                entries@.len(),
            ),
            _ => false,
        },
        _ => false,
    }
}

/// Each of the first `k` items reads as the value at its position.
pub open spec fn items_read_as(items: Seq<YamlNode>, vs: Seq<Value>, k: nat) -> bool
    decreases items, k,
{
    if k == 0 {
        true
    } else if k > items.len() {
        false
    } else {
        items_read_as(items, vs, (k - 1) as nat) && reads_as(items[k - 1], vs[k - 1])
    }
}

/// Each of the first `k` entries has a string key equal to the key at its
/// position, and a value that reads as the value there.
pub open spec fn entries_read_as(
    entries: Seq<(YamlNode, YamlNode)>,
    ms: Seq<(String, Value)>,
    k: nat,
) -> bool
    decreases entries, k,
{
    if k == 0 {
        true
    } else if k > entries.len() {
        false
    } else {
        &&& entries_read_as(entries, ms, (k - 1) as nat)
        &&& entries[k - 1].0 == YamlNode::Value(ScalarNode::String(ms[k - 1].0))
        &&& reads_as(entries[k - 1].1, ms[k - 1].1)
    }
}

/// Whether the first `k` items read as values depends on those values only.
pub proof fn lemma_items_read_as_prefix(items: Seq<YamlNode>, vs: Seq<Value>, ws: Seq<Value>, k: nat)
    requires
        items_read_as(items, vs, k),
        k <= vs.len(),
        k <= ws.len(),
        forall|j: int| 0 <= j < k ==> vs[j] == ws[j],
    ensures
        items_read_as(items, ws, k),
    decreases k,
{
    if k > 0 {
        lemma_items_read_as_prefix(items, vs, ws, (k - 1) as nat);
    }
}

/// Whether the first `k` entries read as entries depends on those entries only.
pub proof fn lemma_entries_read_as_prefix(
    entries: Seq<(YamlNode, YamlNode)>,
    ms: Seq<(String, Value)>,
    ns: Seq<(String, Value)>,
    k: nat,
)
    requires
        entries_read_as(entries, ms, k),
        k <= ms.len(),
        k <= ns.len(),
        forall|j: int| 0 <= j < k ==> ms[j] == ns[j],
    ensures
        entries_read_as(entries, ns, k),
    decreases k,
{
    if k > 0 {
        lemma_entries_read_as_prefix(entries, ms, ns, (k - 1) as nat);
    }
}

/// The rejection for a fault.
pub open spec fn fault_error(f: Fault, stage: Stage, path: Seq<char>, what: Seq<char>) -> ErrorView {
    match f {
        Fault::KeyType => malformed(rule::KEY_TYPE@, stage, path, what + rule::NON_STRING_KEY@),
        Fault::TreeOnly => malformed(rule::TREE_ONLY@, stage, path, what + rule::UNREAD_CONSTRUCT@),
    }
}

/// Once a fault is found among the first items, it stays the first fault.
pub proof fn lemma_items_fault_stable(items: Seq<YamlNode>, k1: nat, k2: nat)
    requires
        k1 <= k2 <= items.len(),
        items_fault(items, k1) is Some,
    ensures
        items_fault(items, k2) == items_fault(items, k1),
    decreases k2,
{
    if k2 > k1 {
        lemma_items_fault_stable(items, k1, (k2 - 1) as nat);
    }
}

/// Once a fault is found among the first entries, it stays the first fault.
pub proof fn lemma_entries_fault_stable(entries: Seq<(YamlNode, YamlNode)>, k1: nat, k2: nat)
    requires
        k1 <= k2 <= entries.len(),
        entries_fault(entries, k1) is Some,
    ensures
        entries_fault(entries, k2) == entries_fault(entries, k1),
    decreases k2,
{
    if k2 > k1 {
        lemma_entries_fault_stable(entries, k1, (k2 - 1) as nat);
    }
}

/// Freedom from repeated string keys holds of every prefix of the items.
pub proof fn lemma_items_distinct_prefix(items: Seq<YamlNode>, k1: nat, k2: nat)
    requires
        k1 <= k2 <= items.len(),
        items_string_keys_distinct(items, k2),
    ensures
        items_string_keys_distinct(items, k1),
    decreases k2,
{
    if k2 > k1 {
        lemma_items_distinct_prefix(items, k1, (k2 - 1) as nat);
    }
}

/// Freedom from repeated string keys holds of every prefix of the entries.
pub proof fn lemma_entries_distinct_prefix(entries: Seq<(YamlNode, YamlNode)>, k1: nat, k2: nat)
    requires
        k1 <= k2 <= entries.len(),
        entries_string_keys_distinct(entries, k2),
    ensures
        entries_string_keys_distinct(entries, k1),
    decreases k2,
{
    if k2 > k1 {
        lemma_entries_distinct_prefix(entries, k1, (k2 - 1) as nat);
    }
}

/// Each of the first `k` entries that read as members has the member's key as
/// its string key.
pub proof fn lemma_entries_read_as_key(entries: Seq<(YamlNode, YamlNode)>, ms: Seq<(String, Value)>, k: nat, j: int)
    requires
        entries_read_as(entries, ms, k),
        0 <= j < k,
    ensures
        entries[j].0 == YamlNode::Value(ScalarNode::String(ms[j].0)),
    decreases k,
{
    if j < k - 1 {
        lemma_entries_read_as_key(entries, ms, (k - 1) as nat, j);
    }
}

/// Each of the first `k` items that read as values reads as the value at its
/// position.
pub proof fn lemma_items_read_as_index(items: Seq<YamlNode>, vs: Seq<Value>, k: nat, j: int)
    requires
        items_read_as(items, vs, k),
        0 <= j < k,
    ensures
        reads_as(items[j], vs[j]),
    decreases k,
{
    if j < k - 1 {
        lemma_items_read_as_index(items, vs, (k - 1) as nat, j);
    }
}

/// Each of the first `k` entries that read as members has a value reading as
/// the member's value.
pub proof fn lemma_entries_read_as_value(entries: Seq<(YamlNode, YamlNode)>, ms: Seq<(String, Value)>, k: nat, j: int)
    requires
        entries_read_as(entries, ms, k),
        0 <= j < k,
    ensures
        reads_as(entries[j].1, ms[j].1),
    decreases k,
{
    if j < k - 1 {
        lemma_entries_read_as_value(entries, ms, (k - 1) as nat, j);
    }
}

/// A resolved scalar reads as the value of the same kind holding the same
/// datum: null as null, a boolean as that boolean, an integer as that integer
/// (zero included), a float as that float, a string as that string.
pub proof fn law_scalar_reads_as_same_kind(s: ScalarNode, v: Value)
    requires
        reads_as(YamlNode::Value(s), v),
    ensures
        s is Null ==> v is Null,
        s matches ScalarNode::Boolean(b) ==> v == Value::Bool(b),
        s matches ScalarNode::Integer(i) ==> v == Value::Int(i),
        s matches ScalarNode::FloatingPoint(f) ==> v == Value::Float(f),
        s matches ScalarNode::String(t) ==> v == Value::Str(t),
{
}

/// A sequence node, empty or not, reads as a sequence value with exactly as
/// many items, each reading as the item at its position.
pub proof fn law_sequence_reads_as_sequence(items: Vec<YamlNode>, v: Value)
    requires
        reads_as(YamlNode::Sequence(items), v),
    ensures
        v matches Value::Sequence(vs) && vs@.len() == items@.len() && forall|j: int|
            0 <= j < items@.len() ==> #[trigger] reads_as(items@[j], vs@[j]),
{
    if let Value::Sequence(vs) = v {
        assert forall|j: int| 0 <= j < items@.len() implies #[trigger] reads_as(items@[j], vs@[j]) by {
            lemma_items_read_as_index(items@, vs@, items@.len(), j);
        }
    }
}

/// A mapping node reads as a mapping value with exactly as many entries, in
/// document order, each keyed by the entry's string key and holding a value
/// that reads as the entry's value.
pub proof fn law_mapping_reads_as_mapping(entries: Vec<(YamlNode, YamlNode)>, v: Value)
    requires
        reads_as(YamlNode::Mapping(entries), v),
    ensures
        v matches Value::Mapping(m) && m@.len() == entries@.len() && forall|j: int|
            #![trigger m@[j]]
            0 <= j < entries@.len() ==> entries@[j].0 == YamlNode::Value(ScalarNode::String(m@[j].0))
                && reads_as(entries@[j].1, m@[j].1),
{
    if let Value::Mapping(m) = v {
        assert(m@.len() == entries@.len());
        assert(entries_read_as(entries@, m@, entries@.len()));
        assert forall|j: int| #![trigger m@[j]] 0 <= j < entries@.len() implies entries@[j].0 == YamlNode::Value(
            ScalarNode::String(m@[j].0),
        ) && reads_as(entries@[j].1, m@[j].1) by {
            lemma_entries_read_as_key(entries@, m@, entries@.len(), j);
            lemma_entries_read_as_value(entries@, m@, entries@.len(), j);
        }
    }
}

/// A node that is not a resolved scalar, a sequence or a mapping is a fault
/// and reads as no value.
pub proof fn law_other_nodes_fault(n: YamlNode, v: Value)
    requires
        n is Representation || n is Tagged || n is Alias || n is BadValue,
    ensures
        node_fault(n) == Some(Fault::TreeOnly),
        !reads_as(n, v),
{
}

/// The first `k` items are free of faults exactly when each of them is.
pub proof fn lemma_items_fault_free(items: Seq<YamlNode>, k: nat, j: int)
    requires
        items_fault(items, k) is None,
        k <= items.len(),
        0 <= j < k,
    ensures
        node_fault(items[j]) is None,
    decreases k,
{
    if j < k - 1 {
        lemma_items_fault_free(items, (k - 1) as nat, j);
    }
}

/// Among the first `k` entries free of faults, every key is a string scalar
/// and every value is free of faults.
pub proof fn lemma_entries_fault_free(entries: Seq<(YamlNode, YamlNode)>, k: nat, j: int)
    requires
        entries_fault(entries, k) is None,
        k <= entries.len(),
        0 <= j < k,
    ensures
        is_string_key(entries[j].0),
        node_fault(entries[j].1) is None,
    decreases k,
{
    if j < k - 1 {
        lemma_entries_fault_free(entries, (k - 1) as nat, j);
    }
}

/// A node free of faults has only string keys in its mappings, at every
/// level: a mapping free of faults has a string scalar as every key and
/// values free of faults, and a sequence free of faults has items free of
/// faults.
pub proof fn law_fault_free_nodes(n: YamlNode)
    requires
        node_fault(n) is None,
    ensures
        n matches YamlNode::Mapping(entries) ==> forall|j: int|
            0 <= j < entries@.len() ==> #[trigger] is_string_key(entries@[j].0) && node_fault(
                entries@[j].1,
            ) is None,
        n matches YamlNode::Sequence(items) ==> forall|j: int|
            0 <= j < items@.len() ==> #[trigger] node_fault(items@[j]) is None,
{
    match n {
        YamlNode::Mapping(entries) => {
            assert forall|j: int| 0 <= j < entries@.len() implies #[trigger] is_string_key(entries@[j].0)
                && node_fault(entries@[j].1) is None by {
                lemma_entries_fault_free(entries@, entries@.len(), j);
            }
        },
        YamlNode::Sequence(items) => {
            assert forall|j: int| 0 <= j < items@.len() implies #[trigger] node_fault(items@[j]) is None by {
                lemma_items_fault_free(items@, items@.len(), j);
            }
        },
        _ => {},
    }
}

/// Reads a resolved scalar.
pub fn convert_scalar(s: &ScalarNode) -> (v: Value)
    ensures
        v == scalar_value(*s),
        *s is Null ==> v is Null,
        *s matches ScalarNode::Boolean(b) ==> v == Value::Bool(b),
        *s matches ScalarNode::Integer(i) ==> v == Value::Int(i),
        *s matches ScalarNode::FloatingPoint(f) ==> v == Value::Float(f),
        *s matches ScalarNode::String(t) ==> v == Value::Str(t),
{
    match s {
        ScalarNode::Null => Value::Null,
        ScalarNode::Boolean(b) => Value::Bool(*b),
        ScalarNode::Integer(i) => Value::Int(*i),
        ScalarNode::FloatingPoint(f) => Value::Float(FloatNum { bits: f.bits, text: f.text.clone() }),
        ScalarNode::String(t) => Value::Str(t.clone()),
    }
}

/// Reads a composed node as a [`Value`]. Non-string keys are refused rather
/// than stringified, so two distinct keys cannot collapse into one name; a
/// node other than a resolved scalar, a sequence or a mapping is refused, so
/// the input stays a tree.
pub fn convert(y: &YamlNode, stage: Stage, path: &str, what: &str) -> (r: Result<Value, Error>)
    ensures
        match node_fault(*y) {
            Some(f) => r matches Err(e) && e@ == fault_error(f, stage, path@, what@),
            None => r matches Ok(v) && reads_as(*y, v),
        },
        node_string_keys_distinct(*y) ==> (r matches Ok(v) ==> value_keys_distinct(v)),
        r matches Ok(v) ==> (*y matches YamlNode::Value(ScalarNode::Integer(i)) ==> v == Value::Int(i)),
        r matches Ok(v) ==> (*y matches YamlNode::Value(ScalarNode::String(t)) ==> v == Value::Str(t)),
        r matches Ok(v) ==> (*y matches YamlNode::Value(ScalarNode::Boolean(b)) ==> v == Value::Bool(b)),
        r matches Ok(v) ==> (*y matches YamlNode::Value(ScalarNode::FloatingPoint(f)) ==> v == Value::Float(f)),
        r matches Ok(v) ==> (*y matches YamlNode::Value(ScalarNode::Null) ==> v is Null),
        r matches Ok(v) ==> (*y matches YamlNode::Sequence(items) ==> (v matches Value::Sequence(vs)
            && vs@.len() == items@.len() && forall|j: int|
            0 <= j < items@.len() ==> #[trigger] reads_as(items@[j], vs@[j]))),
        r matches Ok(v) ==> (*y matches YamlNode::Mapping(entries) ==> (v matches Value::Mapping(m)
            && m@.len() == entries@.len() && forall|j: int|
            #![trigger m@[j]]
            0 <= j < entries@.len() ==> entries@[j].0 == YamlNode::Value(ScalarNode::String(m@[j].0))
                && reads_as(entries@[j].1, m@[j].1))),
    decreases y,
{
    match y {
        YamlNode::Value(s) => Ok(convert_scalar(s)),
        YamlNode::Sequence(items) => {
            let mut out: Vec<Value> = Vec::new();
            let mut i: usize = 0;
            while i < items.len()
                invariant
                    i <= items@.len(),
                    *y == YamlNode::Sequence(*items),
                    out@.len() == i,
                    items_fault(items@, i as nat) is None,
                    items_read_as(items@, out@, i as nat),
                    node_string_keys_distinct(*y) ==> values_keys_distinct(out@, i as nat),
                decreases items@.len() - i,
            {
                proof {
                    vstd::std_specs::vec::axiom_vec_index_decreases(*items, i as int);
                }
                match convert(&items[i], stage, path, what) {
                    Ok(v) => {
                        let ghost before = out@;
                        out.push(v);
                        proof {
                            lemma_items_read_as_prefix(items@, before, out@, i as nat);
                            if node_string_keys_distinct(*y) {
                                lemma_items_distinct_prefix(items@, (i + 1) as nat, items@.len());
                                lemma_values_keys_distinct_prefix(before, out@, i as nat);
                            }
                        }
                    },
                    Err(e) => {
                        proof {
                            lemma_items_fault_stable(items@, (i + 1) as nat, items@.len());
                        }
                        return Err(e);
                    },
                }
                i = i + 1;
            }
            proof {
                law_sequence_reads_as_sequence(*items, Value::Sequence(out));
            }
            Ok(Value::Sequence(out))
        },
        YamlNode::Mapping(entries) => {
            let mut out: Vec<(String, Value)> = Vec::new();
            let mut i: usize = 0;
            while i < entries.len()
                invariant
                    i <= entries@.len(),
                    *y == YamlNode::Mapping(*entries),
                    out@.len() == i,
                    entries_fault(entries@, i as nat) is None,
                    entries_read_as(entries@, out@, i as nat),
                    node_string_keys_distinct(*y) ==> members_keys_distinct(out@, i as nat),
                decreases entries@.len() - i,
            {
                let key = match &entries[i].0 {
                    YamlNode::Value(ScalarNode::String(k)) => k.clone(),
                    _ => {
                        proof {
                            lemma_entries_fault_stable(entries@, (i + 1) as nat, entries@.len());
                        }
                        let mut d = String::from_str(what);
                        d.append(rule::NON_STRING_KEY);
                        return Err(Error::malformed(rule::KEY_TYPE, stage, path, d));
                    },
                };
                proof {
                    vstd::std_specs::vec::axiom_vec_index_decreases(*entries, i as int);
                }
                match convert(&entries[i].1, stage, path, what) {
                    Ok(v) => {
                        let ghost before = out@;
                        out.push((key, v));
                        proof {
                            lemma_entries_read_as_prefix(entries@, before, out@, i as nat);
                            if node_string_keys_distinct(*y) {
                                lemma_entries_distinct_prefix(entries@, (i + 1) as nat, entries@.len());
                                lemma_members_keys_distinct_prefix(before, out@, i as nat);
                                assert forall|j: int| 0 <= j < i implies #[trigger] out@[j].0@ != out@[i as int].0@ by {
                                    lemma_entries_read_as_key(entries@, before, i as nat, j);
                                    assert(key_text(entries@[j].0) == Some(before[j].0@));
                                }
                            }
                        }
                    },
                    Err(e) => {
                        proof {
                            lemma_entries_fault_stable(entries@, (i + 1) as nat, entries@.len());
                        }
                        return Err(e);
                    },
                }
                i = i + 1;
            }
            proof {
                law_mapping_reads_as_mapping(*entries, Value::Mapping(Mapping(out)));
            }
            Ok(Value::Mapping(Mapping(out)))
        },
        _ => {
            let mut d = String::from_str(what);
            d.append(rule::UNREAD_CONSTRUCT);
            Err(Error::malformed(rule::TREE_ONLY, stage, path, d))
        },
    }
}

/// What a read comes to.
pub enum Reading {
    /// The input is refused with this rejection.
    Refused(ErrorView),
    /// The input is the empty mapping.
    Empty,
    /// The input is this node, which reads without fault.
    Node(YamlNode),
}

/// `r` is the result `g` describes: the rejection, the empty mapping, or a
/// value the node reads as.
pub open spec fn reading_holds(r: Result<Value, Error>, g: Reading) -> bool {
    match g {
        Reading::Refused(e) => r matches Err(x) && x@ == e,
        Reading::Empty => r matches Ok(Value::Mapping(m)) && m@.len() == 0,
        Reading::Node(n) => r matches Ok(v) && reads_as(n, v),
    }
}

/// The rejection for a text holding more than one document.
pub open spec fn many_documents_error(count: nat, stage: Stage, path: Seq<char>, what: Seq<char>) -> ErrorView {
    malformed(
        rule::SINGLE_DOCUMENT@,
        stage,
        path,
        what + rule::CONTAINS@ + decimal(count) + rule::DOCUMENTS@,
    )
}

/// What the composed documents of one text come to: one document per
/// composition; no document, or a document that is only a null, is the empty
/// mapping; otherwise the one document, if it reads without fault.
pub open spec fn documents_reading(docs: Seq<YamlNode>, stage: Stage, path: Seq<char>, what: Seq<char>) -> Reading {
    if docs.len() > 1 {
        Reading::Refused(many_documents_error(docs.len(), stage, path, what))
    } else if docs.len() == 0 || docs[0] matches YamlNode::Value(ScalarNode::Null) {
        Reading::Empty
    } else {
        match node_fault(docs[0]) {
            Some(f) => Reading::Refused(fault_error(f, stage, path, what)),
            None => Reading::Node(docs[0]),
        }
    }
}

/// What reading `data` comes to: bytes that are not UTF-8 are refused; then the
/// scan's verdict on the text's event stream; then a text the composer refuses
/// is refused; otherwise what its documents come to.
pub open spec fn read_bytes(data: Seq<u8>, stage: Stage, path: Seq<char>, what: Seq<char>) -> Reading {
    if !valid_utf8(data) {
        Reading::Refused(
            malformed(rule::WELL_FORMED@, stage, path, what + rule::NOT_UTF8@ + utf8_error_text(data)),
        )
    } else {
        let text = decode_utf8(data);
        let stream = yaml_event_stream(text);
        match scan_verdict(stream.0, stream.1, stage, path, what) {
            Err(e) => Reading::Refused(e),
            Ok(_) => match yaml_documents(text) {
                Err(m) => Reading::Refused(not_yaml_error(stage, path, what, m)),
                Ok(docs) => documents_reading(docs, stage, path, what),
            },
        }
    }
}

/// Reads the documents the composer returned for one text.
pub fn read_documents(docs: &Vec<YamlNode>, stage: Stage, path: &str, what: &str) -> (r: Result<Value, Error>)
    ensures
        reading_holds(r, documents_reading(docs@, stage, path@, what@)),
        (forall|i: int| 0 <= i < docs@.len() ==> #[trigger] node_string_keys_distinct(docs@[i]))
            ==> (r matches Ok(v) ==> value_keys_distinct(v)),
        docs@.len() == 1 && !(docs@[0] matches YamlNode::Value(ScalarNode::Null)) ==> match node_fault(
            docs@[0],
        ) {
            None => r matches Ok(v) && reads_as(docs@[0], v),
            Some(f) => r matches Err(e) && e@ == fault_error(f, stage, path@, what@),
        },
        docs@.len() == 1 && node_fault(docs@[0]) is None ==> (docs@[0] matches YamlNode::Sequence(
            items,
        ) ==> (r matches Ok(Value::Sequence(vs)) && vs@.len() == items@.len())),
{
    if docs.len() > 1 {
        let mut d = String::from_str(what);
        d.append(rule::CONTAINS);
        let count = decimal_text(docs.len() as u64);
        d.append(count.as_str());
        d.append(rule::DOCUMENTS);
        return Err(Error::malformed(rule::SINGLE_DOCUMENT, stage, path, d));
    }
    if docs.len() == 0 {
        return Ok(Value::Mapping(Mapping(Vec::new())));
    }
    match &docs[0] {
        YamlNode::Value(ScalarNode::Null) => Ok(Value::Mapping(Mapping(Vec::new()))),
        doc => convert(doc, stage, path, what),
    }
}

/// Parses a YAML document.
///
/// `stage` and `path` are carried in because the same malformed-input failure
/// is raised from several stages and each has to name its own.
pub fn parse(data: &[u8], stage: Stage, path: &str, what: &str) -> (r: Result<Value, Error>)
    ensures
        reading_holds(r, read_bytes(data@, stage, path@, what@)),
        r matches Ok(v) ==> value_keys_distinct(v),
{
    let text = match utf8_text(data) {
        Ok(t) => t,
        Err(m) => {
            let mut d = String::from_str(what);
            d.append(rule::NOT_UTF8);
            d.append(m.as_str());
            return Err(Error::malformed(rule::WELL_FORMED, stage, path, d));
        },
    };
    match scan_input(text, stage, path, what) {
        Ok(()) => {},
        Err(e) => return Err(e),
    }
    match load_documents(text) {
        Ok(docs) => read_documents(&docs, stage, path, what),
        Err(m) => {
            let mut d = String::from_str(what);
            d.append(rule::NOT_YAML);
            d.append(m.as_str());
            Err(Error::malformed(rule::WELL_FORMED, stage, path, d))
        },
    }
}

/// Every refusal of the reader carries the code `E_MALFORMED_DOCUMENT`, and
/// the stage and path it was called with.
pub proof fn law_refusals_are_malformed_at_stage(data: Seq<u8>, stage: Stage, path: Seq<char>, what: Seq<char>)
    ensures
        read_bytes(data, stage, path, what) matches Reading::Refused(e) ==> {
            &&& e.code == crate::code::MALFORMED_DOCUMENT@
            &&& e.stage == stage
            &&& e.path == path
        },
{
    if valid_utf8(data) {
        let text = decode_utf8(data);
        let stream = yaml_event_stream(text);
        if scan_verdict(stream.0, stream.1, stage, path, what) is Ok {
            if let Ok(docs) = yaml_documents(text) {
                if docs.len() <= 1 && docs.len() != 0 {
                    if let Some(f) = node_fault(docs[0]) {
                        assert(fault_error(f, stage, path, what).stage == stage);
                    }
                }
            }
        }
    }
}

/// How documents fold: none is the empty mapping; more than one is refused
/// under the single-document rule; exactly one null is the empty mapping; and
/// exactly one of anything else is never the empty mapping: it is that node
/// when it reads without fault, and refused for its first fault otherwise.
pub proof fn law_documents_fold(docs: Seq<YamlNode>, stage: Stage, path: Seq<char>, what: Seq<char>)
    ensures
        docs.len() == 0 ==> documents_reading(docs, stage, path, what) is Empty,
        docs.len() > 1 ==> (documents_reading(docs, stage, path, what) matches Reading::Refused(e)
            && e.rule == rule::SINGLE_DOCUMENT@),
        docs.len() == 1 && (docs[0] matches YamlNode::Value(ScalarNode::Null)) ==> documents_reading(
            docs,
            stage,
            path,
            what,
        ) is Empty,
        docs.len() == 1 && !(docs[0] matches YamlNode::Value(ScalarNode::Null)) ==> {
            &&& !(documents_reading(docs, stage, path, what) is Empty)
            &&& node_fault(docs[0]) is None ==> documents_reading(docs, stage, path, what)
                == Reading::Node(docs[0])
            &&& (node_fault(docs[0]) matches Some(f) ==> documents_reading(docs, stage, path, what)
                == Reading::Refused(fault_error(f, stage, path, what)))
        },
{
}

/// A read that comes to a node came from valid UTF-8 whose text composes to
/// exactly that one document, which is not a null; a read that comes to the
/// empty mapping came from a text that composes to no document or to one null.
pub proof fn law_reading_comes_from_the_one_document(
    data: Seq<u8>,
    stage: Stage,
    path: Seq<char>,
    what: Seq<char>,
)
    ensures
        read_bytes(data, stage, path, what) matches Reading::Node(n) ==> {
            &&& valid_utf8(data)
            &&& (yaml_documents(decode_utf8(data)) matches Ok(docs) && docs.len() == 1 && docs[0] == n)
            &&& !(n matches YamlNode::Value(ScalarNode::Null))
        },
        read_bytes(data, stage, path, what) is Empty ==> {
            &&& valid_utf8(data)
            &&& (yaml_documents(decode_utf8(data)) matches Ok(docs) && (docs.len() == 0 || (docs.len()
                == 1 && (docs[0] matches YamlNode::Value(ScalarNode::Null)))))
        },
{
}

/// What a read comes to depends on the bytes alone: whether they are refused,
/// and under which code and rule, whether they are the empty mapping, and which
/// node they read as. Only the stage, path and wording the caller passes in
/// differ between two reads of the same bytes.
pub proof fn law_reading_depends_on_bytes(
    data: Seq<u8>,
    stage1: Stage,
    path1: Seq<char>,
    what1: Seq<char>,
    stage2: Stage,
    path2: Seq<char>,
    what2: Seq<char>,
)
    ensures
        read_bytes(data, stage1, path1, what1) is Refused <==> read_bytes(data, stage2, path2, what2) is Refused,
        read_bytes(data, stage1, path1, what1) is Empty <==> read_bytes(data, stage2, path2, what2) is Empty,
        (read_bytes(data, stage1, path1, what1), read_bytes(data, stage2, path2, what2)) matches (
            Reading::Node(n1),
            Reading::Node(n2),
        ) ==> n1 == n2,
        (read_bytes(data, stage1, path1, what1), read_bytes(data, stage2, path2, what2)) matches (
            Reading::Refused(e1),
            Reading::Refused(e2),
        ) ==> e1.code == e2.code && e1.rule == e2.rule && e1.stage == stage1 && e2.stage == stage2
            && e1.path == path1 && e2.path == path2,
{
    law_refusals_are_malformed_at_stage(data, stage1, path1, what1);
    law_refusals_are_malformed_at_stage(data, stage2, path2, what2);
}

/// A document the reader accepts is valid UTF-8 and its event stream holds no
/// alias and no anchored node: both are refused before any tree is composed.
pub proof fn law_accepted_document_has_no_alias_or_anchor(
    data: Seq<u8>,
    stage: Stage,
    path: Seq<char>,
    what: Seq<char>,
)
    requires
        !(read_bytes(data, stage, path, what) is Refused),
    ensures
        valid_utf8(data),
        forall|i: int|
            0 <= i < yaml_event_stream(decode_utf8(data)).0.len() ==> !(
            #[trigger] yaml_event_stream(decode_utf8(data)).0[i] is Alias) && !is_anchored(
                yaml_event_stream(decode_utf8(data)).0[i],
            ),
        forall|i: int|
            0 <= i < yaml_event_stream(decode_utf8(data)).0.len() ==> match #[trigger] yaml_event_stream(
                decode_utf8(data),
            ).0[i] {
                ScanEvent::Alias => false,
                ScanEvent::Scalar(_, anchor) => anchor == 0,
                ScanEvent::SequenceStart(anchor) => anchor == 0,
                ScanEvent::MappingStart(anchor) => anchor == 0,
                _ => true,
            },
{
    let stream = yaml_event_stream(decode_utf8(data));
    crate::scan::law_accepted_stream_has_no_alias_or_anchor(Seq::empty(), stream.0);
}

} // verus!
