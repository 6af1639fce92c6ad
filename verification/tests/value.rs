use cic_primitive_engine::reader::{FloatNum, Mapping, Value};

fn sample() -> Mapping {
    let mut m = Mapping(Vec::new());
    m.push("a".to_string(), Value::Int(1));
    m.push("b".to_string(), Value::Str("two".to_string()));
    m
}

#[test]
fn get_finds_the_first_entry() {
    let mut m = sample();
    m.push("a".to_string(), Value::Int(99));
    assert_eq!(m.get("a"), Some(&Value::Int(1)));
    assert_eq!(m.get("z"), None);
    assert!(m.contains("b"));
    assert!(!m.contains("c"));
}

#[test]
fn insert_then_get_reads_back_the_value() {
    let mut m = sample();
    m.insert("a".to_string(), Value::Bool(true));
    assert_eq!(m.get("a"), Some(&Value::Bool(true)));
    assert_eq!(m.get("b").and_then(|v| v.as_str()), Some("two"));
    assert_eq!(m.keys(), vec!["a", "b"]);
    assert_eq!(m.len(), 2);
}

#[test]
fn insert_of_a_new_key_appends() {
    let mut m = sample();
    m.insert("c".to_string(), Value::Null);
    assert_eq!(m.keys(), vec!["a", "b", "c"]);
    assert_eq!(m.get("c"), Some(&Value::Null));
}

#[test]
fn push_appends_without_looking() {
    let mut m = sample();
    m.push("a".to_string(), Value::Null);
    assert_eq!(m.len(), 3);
    assert_eq!(m.keys(), vec!["a", "b", "a"]);
}

#[test]
fn empty_mapping() {
    let m = Mapping(Vec::new());
    assert!(m.is_empty());
    assert_eq!(m.len(), 0);
    assert!(m.keys().is_empty());
    assert!(!sample().is_empty());
}

#[test]
fn accessors_pick_their_variant() {
    let m = Value::Mapping(sample());
    assert!(m.as_map().is_some());
    assert!(m.as_seq().is_none());
    assert!(m.as_str().is_none());
    let s = Value::Sequence(vec![Value::Null, Value::Int(2)]);
    assert_eq!(s.as_seq().map(|x| x.len()), Some(2));
    assert!(s.as_map().is_none());
    assert_eq!(Value::Str("x".to_string()).as_str(), Some("x"));
}

fn float(x: f64) -> FloatNum {
    FloatNum { bits: x.to_bits(), text: x.to_string() }
}

#[test]
fn plain_strings() {
    assert_eq!(Value::Null.to_plain_string(), "null");
    assert_eq!(Value::Bool(true).to_plain_string(), "true");
    assert_eq!(Value::Bool(false).to_plain_string(), "false");
    assert_eq!(Value::Int(0).to_plain_string(), "0");
    assert_eq!(Value::Int(-1234).to_plain_string(), "-1234");
    assert_eq!(Value::Int(i64::MIN).to_plain_string(), i64::MIN.to_string());
    assert_eq!(Value::Int(i64::MAX).to_plain_string(), i64::MAX.to_string());
    assert_eq!(Value::Float(float(2.25)).to_plain_string(), "2.25");
    assert_eq!(Value::Str("hi".to_string()).to_plain_string(), "hi");
    assert_eq!(Value::Sequence(vec![]).to_plain_string(), "<sequence>");
    assert_eq!(Value::Mapping(sample()).to_plain_string(), "<mapping>");
}

#[test]
fn float_equality_follows_ieee() {
    assert_eq!(float(1.5), float(1.5));
    assert_ne!(float(1.5), float(2.5));
    assert_eq!(float(0.0), float(-0.0));
    assert_ne!(float(f64::NAN), float(f64::NAN));
    assert_eq!(float(f64::INFINITY), float(f64::INFINITY));
}

#[test]
fn clone_keeps_everything() {
    let mut inner = sample();
    inner.push("f".to_string(), Value::Float(float(0.5)));
    let v = Value::Sequence(vec![Value::Mapping(inner), Value::Str("s".to_string()), Value::Int(-3)]);
    let c = v.clone();
    assert_eq!(c, v);
    let m = sample();
    assert_eq!(m.clone(), m);
}

#[test]
fn default_mapping_is_empty() {
    let m = Mapping::default();
    assert!(m.is_empty());
}
