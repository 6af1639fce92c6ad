use cic_primitive_engine::scan::{consume_value, scan_events, scan_input, Frame};
use cic_primitive_engine::yaml::ScanEvent;
use cic_primitive_engine::{rule, Stage};

fn key(s: &str) -> ScanEvent {
    ScanEvent::Scalar(s.to_string(), 0)
}

#[test]
fn repeated_key_in_flat_mapping_is_refused() {
    let events = vec![
        ScanEvent::MappingStart(0),
        key("a"),
        key("1"),
        key("b"),
        key("2"),
        key("a"),
        key("3"),
        ScanEvent::MappingEnd,
    ];
    let e = scan_events(&events, None, Stage::Read, "$", "doc").unwrap_err();
    assert_eq!(e.rule, rule::DUPLICATE_KEY);
    assert!(e.detail.starts_with("doc declares `a` twice"));
}

#[test]
fn values_are_not_keys() {
    let events = vec![ScanEvent::MappingStart(0), key("a"), key("a"), key("b"), key("a"), ScanEvent::MappingEnd];
    assert!(scan_events(&events, None, Stage::Read, "$", "doc").is_ok());
}

#[test]
fn sibling_mappings_have_their_own_keys() {
    let events = vec![
        ScanEvent::SequenceStart(0),
        ScanEvent::MappingStart(0),
        key("a"),
        key("1"),
        ScanEvent::MappingEnd,
        ScanEvent::MappingStart(0),
        key("a"),
        key("2"),
        ScanEvent::MappingEnd,
        ScanEvent::SequenceEnd,
    ];
    assert!(scan_events(&events, None, Stage::Read, "$", "doc").is_ok());
}

#[test]
fn collection_value_moves_the_mapping_on() {
    let events = vec![
        ScanEvent::MappingStart(0),
        key("a"),
        ScanEvent::SequenceStart(0),
        key("x"),
        ScanEvent::SequenceEnd,
        key("b"),
        key("1"),
        ScanEvent::MappingEnd,
    ];
    assert!(scan_events(&events, None, Stage::Read, "$", "doc").is_ok());
}

#[test]
fn alias_comes_before_a_later_parser_error() {
    let events = vec![ScanEvent::MappingStart(0), key("a"), ScanEvent::Alias];
    let e = scan_events(&events, Some("boom".to_string()), Stage::Read, "$", "doc").unwrap_err();
    assert_eq!(e.rule, rule::ALIAS);
    let e = scan_events(&vec![ScanEvent::Other], Some("boom".to_string()), Stage::Read, "$", "doc")
        .unwrap_err();
    assert_eq!(e.rule, rule::WELL_FORMED);
    assert_eq!(e.detail, "doc is not valid YAML: boom");
}

#[test]
fn scan_input_reads_real_text() {
    assert!(scan_input("a: 1\nb: [1, 1]\n", Stage::Read, "$", "doc").is_ok());
    assert_eq!(scan_input("a: 1\na: 1\n", Stage::Read, "$", "doc").unwrap_err().rule, rule::DUPLICATE_KEY);
    assert_eq!(scan_input("a: &x 1\nb: *x\n", Stage::Read, "$", "doc").unwrap_err().rule, rule::ALIAS);
}

#[test]
fn consume_value_moves_a_waiting_mapping_to_its_next_key() {
    let mut waiting = Frame::empty(true);
    waiting.expecting_key = false;
    let mut stack = vec![waiting];
    consume_value(&mut stack);
    assert!(stack[0].expecting_key);
    let mut stack = vec![Frame::empty(false)];
    consume_value(&mut stack);
    assert!(!stack[0].expecting_key);
    let mut empty: Vec<Frame> = Vec::new();
    consume_value(&mut empty);
    assert!(empty.is_empty());
}

#[test]
fn repeated_key_after_a_nested_value_is_refused() {
    let events = vec![
        ScanEvent::MappingStart(0),
        key("a"),
        ScanEvent::MappingStart(0),
        key("x"),
        key("1"),
        ScanEvent::MappingEnd,
        key("b"),
        key("2"),
        key("a"),
        key("3"),
        ScanEvent::MappingEnd,
    ];
    let e = scan_events(&events, None, Stage::Read, "$", "doc").unwrap_err();
    assert_eq!(e.rule, rule::DUPLICATE_KEY);
    assert!(e.detail.starts_with("doc declares `a` twice"));
}

#[test]
fn anchored_nodes_are_refused() {
    for anchored in [ScanEvent::Scalar("1".to_string(), 1), ScanEvent::SequenceStart(2), ScanEvent::MappingStart(3)] {
        let events = vec![ScanEvent::MappingStart(0), key("a"), anchored];
        let e = scan_events(&events, None, Stage::Read, "$", "doc").unwrap_err();
        assert_eq!(e.rule, rule::ALIAS);
        assert!(e.detail.starts_with("doc uses a YAML anchor or alias"));
    }
}

#[test]
fn scan_input_refuses_an_anchor_without_alias() {
    assert_eq!(scan_input("a: &x 1\n", Stage::Read, "$", "doc").unwrap_err().rule, rule::ALIAS);
    assert_eq!(scan_input("a: &x [1]\n", Stage::Read, "$", "doc").unwrap_err().rule, rule::ALIAS);
    assert_eq!(scan_input("a: &x {b: 1}\n", Stage::Read, "$", "doc").unwrap_err().rule, rule::ALIAS);
}
