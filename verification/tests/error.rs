use cic_primitive_engine::text::{decimal_text, signed_decimal_text};
use cic_primitive_engine::{code, Error, Stage};

#[test]
fn stage_names() {
    let all = [
        (Stage::Read, "read"),
        (Stage::Parse, "parse"),
        (Stage::Normalize, "normalize"),
        (Stage::Resolve, "resolve"),
        (Stage::Validate, "validate"),
        (Stage::Canonicalize, "canonicalize"),
    ];
    for (s, name) in all {
        assert_eq!(s.as_str(), name);
    }
    for (a, _) in all {
        for (b, _) in all {
            assert_eq!(a == b, a.as_str() == b.as_str());
        }
    }
}

#[test]
fn error_new_keeps_its_parts() {
    let e = Error::new(code::TYPE_MISMATCH, "R-X", Stage::Parse, "$.a", "bad".to_string());
    assert_eq!(e.code, "E_TYPE_MISMATCH");
    assert_eq!(e.rule, "R-X");
    assert_eq!(e.stage, Stage::Parse);
    assert_eq!(e.path, "$.a");
    assert_eq!(e.detail, "bad");
}

#[test]
fn error_message_renders_all_parts() {
    let e = Error::malformed("R-READ-ALIAS", Stage::Read, "$", "no".to_string());
    assert_eq!(e.message(), "E_MALFORMED_DOCUMENT (R-READ-ALIAS) at $ [stage read]: no");
}

#[test]
fn decimals() {
    assert_eq!(decimal_text(0), "0");
    assert_eq!(decimal_text(7), "7");
    assert_eq!(decimal_text(10), "10");
    assert_eq!(decimal_text(1234567890), "1234567890");
    assert_eq!(decimal_text(u64::MAX), u64::MAX.to_string());
    assert_eq!(signed_decimal_text(-5), "-5");
    assert_eq!(signed_decimal_text(i64::MIN), "-9223372036854775808");
}

