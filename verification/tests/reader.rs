use cic_primitive_engine::reader::{convert, parse, read_documents, Mapping, Value};
use cic_primitive_engine::yaml::{ScalarNode, YamlNode};
use cic_primitive_engine::{code, rule, Error, Stage};

fn read(text: &str) -> Result<Value, Error> {
    parse(text.as_bytes(), Stage::Read, "$", "document")
}

fn refusal(text: &str) -> Error {
    match read(text) {
        Err(e) => e,
        Ok(v) => panic!("expected a refusal, read {:?}", v),
    }
}

fn mapping(v: &Value) -> &Mapping {
    v.as_map().expect("a mapping")
}

#[test]
fn empty_text_is_the_empty_mapping() {
    let v = read("").unwrap();
    assert!(mapping(&v).is_empty());
}

#[test]
fn bare_document_marker_is_the_empty_mapping() {
    let v = read("---\n").unwrap();
    assert!(mapping(&v).is_empty());
}

#[test]
fn flow_empty_mapping_is_the_empty_mapping() {
    let v = read("{}").unwrap();
    assert_eq!(mapping(&v).len(), 0);
}

#[test]
fn member_order_is_preserved() {
    let v = read("zeta: 1\nalpha: 2\nmid: 3\n").unwrap();
    assert_eq!(mapping(&v).keys(), vec!["zeta", "alpha", "mid"]);
}

#[test]
fn scalars_resolve_to_their_types() {
    let v = read("i: -42\nb: true\nn: null\nf: 1.5\ns: hello\nq: '7'\n").unwrap();
    let m = mapping(&v);
    assert_eq!(m.get("i"), Some(&Value::Int(-42)));
    assert_eq!(m.get("b"), Some(&Value::Bool(true)));
    assert_eq!(m.get("n"), Some(&Value::Null));
    assert_eq!(m.get("s").and_then(|s| s.as_str()), Some("hello"));
    assert_eq!(m.get("q").and_then(|s| s.as_str()), Some("7"));
    match m.get("f") {
        Some(Value::Float(f)) => {
            assert_eq!(f.bits, 1.5f64.to_bits());
            assert_eq!(f.text, "1.5");
        }
        other => panic!("expected a float, got {:?}", other),
    }
}

#[test]
fn sequences_keep_their_items_in_order() {
    let v = read("items:\n  - 3\n  - two\n  - [x]\n").unwrap();
    let items = mapping(&v).get("items").unwrap().as_seq().unwrap();
    assert_eq!(items.len(), 3);
    assert_eq!(items[0], Value::Int(3));
    assert_eq!(items[1].as_str(), Some("two"));
    assert_eq!(items[2].as_seq().map(|s| s.len()), Some(1));
}

#[test]
fn same_name_at_different_addresses_is_legal() {
    let v = read("a:\n  a: 1\nb:\n  - a: 2\n  - a: 3\n").unwrap();
    let inner = mapping(mapping(&v).get("a").unwrap());
    assert_eq!(inner.get("a"), Some(&Value::Int(1)));
}

#[test]
fn duplicate_key_is_refused_with_its_rule() {
    let e = refusal("a: 1\nb: 2\na: 3\n");
    assert_eq!(e.code, code::MALFORMED_DOCUMENT);
    assert_eq!(e.rule, rule::DUPLICATE_KEY);
    assert_eq!(e.stage, Stage::Read);
    assert_eq!(e.path, "$");
    assert!(e.detail.starts_with("document declares `a` twice in one mapping"));
}

#[test]
fn duplicate_key_in_nested_mapping_is_refused() {
    let e = refusal("outer:\n  x: 1\n  x: 2\n");
    assert_eq!(e.rule, rule::DUPLICATE_KEY);
}

#[test]
fn alias_is_refused_before_composition() {
    let e = refusal("base: &b {x: 1}\nuse: *b\n");
    assert_eq!(e.rule, rule::ALIAS);
    assert!(e.detail.starts_with("document uses a YAML anchor or alias"));
}

#[test]
fn alias_bomb_is_refused() {
    let text = "a: &a [x, x]\nb: &b [*a, *a]\nc: &c [*b, *b]\nd: &d [*c, *c]\n";
    assert_eq!(refusal(text).rule, rule::ALIAS);
}

#[test]
fn bad_encoding_is_refused() {
    let e = parse(b"a: \xc3\x28\n", Stage::Read, "$", "document").unwrap_err();
    assert_eq!(e.rule, rule::WELL_FORMED);
    assert!(e.detail.starts_with("document is not valid UTF-8: "));
    assert!(e.detail.len() > "document is not valid UTF-8: ".len());
}

#[test]
fn malformed_yaml_is_refused() {
    let e = refusal("a: [1, 2\n");
    assert_eq!(e.rule, rule::WELL_FORMED);
    assert!(e.detail.starts_with("document is not valid YAML: "));
    assert!(e.detail.len() > "document is not valid YAML: ".len());
}

#[test]
fn second_document_is_refused() {
    let e = refusal("a: 1\n---\nb: 2\n");
    assert_eq!(e.rule, rule::SINGLE_DOCUMENT);
    assert_eq!(
        e.detail,
        "document contains 2 YAML documents; an object is exactly one"
    );
}

#[test]
fn non_string_key_is_refused() {
    let e = refusal("1: one\n");
    assert_eq!(e.rule, rule::KEY_TYPE);
    assert_eq!(e.detail, "document has a non-string mapping key; node names are strings");
}

#[test]
fn custom_tag_is_refused() {
    let e = refusal("a: !custom x\n");
    assert_eq!(e.rule, rule::TREE_ONLY);
}

#[test]
fn refusal_names_the_stage_and_path_it_was_given() {
    let e = parse(b"a: 1\na: 2\n", Stage::Validate, "$.spec", "shape").unwrap_err();
    assert_eq!(e.stage, Stage::Validate);
    assert_eq!(e.path, "$.spec");
    assert!(e.detail.starts_with("shape declares"));
}

fn s(t: &str) -> YamlNode {
    YamlNode::Value(ScalarNode::String(t.to_string()))
}

#[test]
fn convert_keeps_entries_in_order() {
    let node = YamlNode::Mapping(vec![
        (s("b"), YamlNode::Value(ScalarNode::Integer(1))),
        (s("a"), YamlNode::Sequence(vec![YamlNode::Value(ScalarNode::Boolean(false))])),
    ]);
    let v = convert(&node, Stage::Read, "$", "document").unwrap();
    let m = mapping(&v);
    assert_eq!(m.keys(), vec!["b", "a"]);
    assert_eq!(m.get("a").unwrap().as_seq().unwrap()[0], Value::Bool(false));
}

#[test]
fn convert_reports_the_first_fault_in_document_order() {
    let node = YamlNode::Mapping(vec![
        (s("a"), YamlNode::Tagged),
        (YamlNode::Value(ScalarNode::Integer(1)), s("x")),
    ]);
    let e = convert(&node, Stage::Read, "$", "document").unwrap_err();
    assert_eq!(e.rule, rule::TREE_ONLY);
    let node = YamlNode::Mapping(vec![
        (YamlNode::Value(ScalarNode::Integer(1)), YamlNode::Tagged),
    ]);
    let e = convert(&node, Stage::Read, "$", "document").unwrap_err();
    assert_eq!(e.rule, rule::KEY_TYPE);
}

#[test]
fn convert_refuses_an_alias_node() {
    let e = convert(&YamlNode::Sequence(vec![YamlNode::Alias]), Stage::Read, "$", "d").unwrap_err();
    assert_eq!(e.rule, rule::TREE_ONLY);
    assert_eq!(
        e.detail,
        "d uses a YAML construct this model does not read (alias, tag or bad value)"
    );
}

#[test]
fn read_documents_folds_null_and_none_to_empty() {
    let none: Vec<YamlNode> = vec![];
    assert!(read_documents(&none, Stage::Read, "$", "d").unwrap().as_map().unwrap().is_empty());
    let null = vec![YamlNode::Value(ScalarNode::Null)];
    assert!(read_documents(&null, Stage::Read, "$", "d").unwrap().as_map().unwrap().is_empty());
    let three = vec![s("a"), s("b"), s("c")];
    let e = read_documents(&three, Stage::Read, "$", "d").unwrap_err();
    assert_eq!(e.detail, "d contains 3 YAML documents; an object is exactly one");
    let one = vec![s("x")];
    assert_eq!(read_documents(&one, Stage::Read, "$", "d").unwrap().as_str(), Some("x"));
}

#[test]
fn anchor_only_document_is_refused() {
    let e = parse(b"a: &x 1\n", Stage::Read, "$", "document").unwrap_err();
    assert_eq!(e.code, "E_MALFORMED_DOCUMENT");
    assert_eq!(e.stage, Stage::Read);
    assert_eq!(e.path, "$");
    assert_eq!(e.rule, rule::ALIAS);
}

#[test]
fn repeated_key_after_nested_value_is_refused() {
    let e = refusal("a:\n  x: 1\nb: 2\na: 3\n");
    assert_eq!(e.rule, rule::DUPLICATE_KEY);
}

#[test]
fn read_mappings_have_distinct_keys() {
    let v = read("a: 1\nb:\n  a: 2\n  b: 3\n").unwrap();
    let m = mapping(&v);
    assert_eq!(m.keys(), vec!["a", "b"]);
    assert_eq!(mapping(m.get("b").unwrap()).keys(), vec!["a", "b"]);
}

#[test]
fn reading_twice_agrees() {
    let text = b"b: [1, x]\na: {c: null}\n";
    let first = parse(text, Stage::Read, "$", "document").unwrap();
    let second = parse(text, Stage::Parse, "$.x", "other").unwrap();
    assert_eq!(first, second);
    let e1 = parse(b"a: 1\na: 2\n", Stage::Read, "$", "document").unwrap_err();
    let e2 = parse(b"a: 1\na: 2\n", Stage::Parse, "$.x", "other").unwrap_err();
    assert_eq!(e1.rule, e2.rule);
    assert_eq!(e1.code, e2.code);
    assert_eq!(e2.stage, Stage::Parse);
    assert_eq!(e2.path, "$.x");
}
