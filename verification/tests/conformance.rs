//! The reader's conformance vectors, written out inline: each is an input and
//! the outcome it must have (accepted, or rejected with a code and a stage).

use cic_primitive_engine::reader;
use cic_primitive_engine::Stage;

struct Vector {
    name: &'static str,
    input: &'static [u8],
    accepted: bool,
    code: Option<&'static str>,
    stage: Option<&'static str>,
}

fn reader_corpus() -> Vec<Vector> {
    let rejected = |name, input| Vector {
        name,
        input,
        accepted: false,
        code: Some("E_MALFORMED_DOCUMENT"),
        stage: Some("read"),
    };
    let accepted = |name, input| Vector { name, input, accepted: true, code: None, stage: None };
    vec![
        rejected("alias_expansion", b"a: &x [1, 2]\nb: *x\n"),
        rejected("anchor_without_alias", b"a: &x 1\n"),
        rejected("nested_duplicate_key", b"a: {x: 1}\nb: 2\na: 3\n"),
        rejected("duplicate_mapping_key", b"a: 1\na: 2\n"),
        rejected("invalid_utf8", b"a: \xff\xfe\n"),
        rejected("multiple_documents", b"a: 1\n---\nb: 2\n"),
        rejected("non_string_key", b"1: a\n"),
        accepted("empty_document", b""),
        accepted("nested_same_name", b"a:\n  a: 1\n"),
        accepted("plain_mapping", b"name: x\nitems:\n  - 1\n  - two\n"),
    ]
}

#[test]
fn reader_vectors() {
    let vectors = reader_corpus();
    let mut failures = Vec::new();

    for v in &vectors {
        let result = reader::parse(v.input, Stage::Read, "$", "document");
        match (&result, v.accepted) {
            (Ok(_), true) => {}
            (Err(e), false) => {
                if let Some(expected) = &v.code {
                    if e.code != *expected {
                        failures.push(format!("{}: expected code {expected}, got {}", v.name, e.code));
                    }
                }
                if let Some(expected) = &v.stage {
                    if e.stage.as_str() != *expected {
                        failures.push(format!(
                            "{}: expected stage {expected}, got {}",
                            v.name,
                            e.stage.as_str()
                        ));
                    }
                }
            }
            (Ok(_), false) => failures.push(format!(
                "{}: LEAKED \u{2014} expected a rejection, the document was accepted",
                v.name
            )),
            (Err(e), true) => failures.push(format!(
                "{}: expected acceptance, rejected with {}",
                v.name, e.code
            )),
        }
    }

    assert!(
        failures.is_empty(),
        "{} of {} reader vectors failed:\n  {}",
        failures.len(),
        vectors.len(),
        failures.join("\n  ")
    );
}

#[test]
fn reader_corpus_has_acceptances_and_rejections() {
    let vectors = reader_corpus();
    assert!(vectors.len() >= 2);
    assert!(vectors.iter().any(|v| v.accepted));
    assert!(vectors.iter().any(|v| !v.accepted));
}
