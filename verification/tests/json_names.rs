use morphir_core::ir::diagnostic::DiagnosticCode;
use morphir_core::json::JsonValue;
use morphir_core::naming::fqname::FQName;
use morphir_core::naming::json_names::{name_from_json, path_from_json, FqnameJsonError};

fn text(s: &str) -> JsonValue {
    JsonValue::Str(s.to_string())
}

fn words(ws: &[&str]) -> JsonValue {
    JsonValue::Array(ws.iter().map(|w| text(w)).collect())
}

fn array(items: Vec<JsonValue>) -> JsonValue {
    JsonValue::Array(items)
}

#[test]
fn a_legacy_nested_array_reads_as_a_fully_qualified_name() {
    let legacy = array(vec![
        array(vec![words(&["acme"]), words(&["b", "i"])]),
        array(vec![words(&["widget", "kit"])]),
        words(&["make", "one"]),
    ]);
    let fq = FQName::from_json(&legacy).ok().expect("a legacy fully qualified name");
    assert_eq!(fq.to_canonical_string(), "acme/BI:widget-kit#make-one");
}

#[test]
fn the_canonical_string_round_trips_through_serde() {
    let text_form = "\"acme/BI:widget-kit#make-one\"";
    let fq = FQName::from_json(&text("acme/BI:widget-kit#make-one")).ok().expect("a canonical fully qualified name");
    assert_eq!(format!("\"{}\"", fq.to_canonical_string()), text_form);
}

#[test]
fn a_string_that_is_not_a_fully_qualified_name_carries_a_diagnostic() {
    match FQName::from_json(&text("acme/BI")) {
        Err(FqnameJsonError::Diagnostic(diagnostic)) => {
            assert_eq!(diagnostic.code, DiagnosticCode::InvalidFqname);
            assert_eq!(diagnostic.cursor, "/");
        }
        _ => panic!("a carried diagnostic"),
    }
}

#[test]
fn an_array_of_the_wrong_length_carries_a_diagnostic() {
    let two = array(vec![array(vec![words(&["acme"])]), array(vec![words(&["widget"])])]);
    match FQName::from_json(&two) {
        Err(FqnameJsonError::Diagnostic(diagnostic)) => {
            assert_eq!(diagnostic.code, DiagnosticCode::InvalidFqname);
            assert_eq!(
                diagnostic.message,
                "a legacy fully qualified name is a package, a module and a local name, not 2 elements"
            );
        }
        _ => panic!("a carried diagnostic"),
    }
}

#[test]
fn names_and_paths_read_from_strings_and_word_arrays() {
    assert_eq!(name_from_json(&words(&["make", "one"])).unwrap().to_canonical_string(), "make-one");
    assert_eq!(name_from_json(&text("make-one")).unwrap().to_canonical_string(), "make-one");
    assert_eq!(name_from_json(&array(vec![JsonValue::Null])).unwrap_err(), "expected string in Name array");
    assert_eq!(name_from_json(&JsonValue::Null).unwrap_err(), "expected string or array for Name");
    let p = path_from_json(&array(vec![words(&["my"]), words(&["org"])])).unwrap();
    assert_eq!(p.to_canonical_string(), "my/org");
    assert_eq!(path_from_json(&text("my/org")).unwrap().to_canonical_string(), "my/org");
    assert_eq!(path_from_json(&JsonValue::Bool(true)).unwrap_err(), "expected string or array for Path");
    match FQName::from_json(&JsonValue::Null) {
        Err(FqnameJsonError::Diagnostic(d)) => assert_eq!(d.code, DiagnosticCode::InvalidType),
        _ => panic!("a carried diagnostic"),
    }
    let bad_local = array(vec![words(&["acme"]), words(&["kit"]), JsonValue::Null]);
    match FQName::from_json(&bad_local) {
        Err(FqnameJsonError::Message(m)) => assert_eq!(m, "expected string or array for Name"),
        _ => panic!("a message"),
    }
}
