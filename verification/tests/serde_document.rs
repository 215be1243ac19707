use morphir_core::ir::diagnostic::{DiagnosticCode, DiagnosticStage};
use morphir_core::ir::v4::serde_document::{decode_fqname, decode_name, document_root};
use morphir_core::json::JsonValue;

fn obj(members: Vec<(&str, JsonValue)>) -> JsonValue {
    JsonValue::Object(members.into_iter().map(|(k, v)| (k.to_string(), v)).collect())
}

fn text(s: &str) -> JsonValue {
    JsonValue::Str(s.to_string())
}

#[test]
fn a_name_reads_from_its_canonical_string() {
    let name = decode_name(&text("value-in-USD"), "/n").unwrap();
    assert_eq!(name.to_canonical_string(), "value-in-USD");
    assert_eq!(name.words(), vec!["value", "in", "u", "s", "d"]);
}

#[test]
fn a_name_that_is_not_a_string_is_an_invalid_type() {
    let d = decode_name(&JsonValue::Bool(true), "/a/b").unwrap_err();
    assert_eq!(d.code, DiagnosticCode::InvalidType);
    assert_eq!(d.stage, DiagnosticStage::Normalization);
    assert_eq!(d.cursor, "/a/b");
    assert_eq!(d.message, "a name must be a canonical string");
}

#[test]
fn an_unspellable_name_is_an_invalid_name_at_its_cursor() {
    let d = decode_name(&text("value--inUSD"), "/x").unwrap_err();
    assert_eq!(d.code, DiagnosticCode::InvalidName);
    assert_eq!(d.cursor, "/x");
    assert!(d.message.starts_with("canonical name mixes both encodings"));
}

#[test]
fn an_fqname_reads_from_its_canonical_string() {
    let f = decode_fqname(&text("morphir/SDK:basics#int"), "/t").unwrap();
    assert_eq!(f.to_canonical_string(), "morphir/SDK:basics#int");
}

#[test]
fn an_fqname_refusal_names_what_is_wrong() {
    let d = decode_fqname(&JsonValue::Null, "/t").unwrap_err();
    assert_eq!(d.code, DiagnosticCode::InvalidType);
    assert_eq!(d.message, "an FQName must be a canonical string");
    let d = decode_fqname(&text("acme/BI"), "/t").unwrap_err();
    assert_eq!(d.code, DiagnosticCode::InvalidFqname);
    assert_eq!(d.cursor, "/t");
    assert_eq!(d.message, "missing ':' in FQName: acme/BI");
}

#[test]
fn a_document_root_gives_its_format_version_and_distribution() {
    let root = obj(vec![
        ("distribution", obj(vec![("Library", obj(vec![]))])),
        ("formatVersion", text("4.0.0")),
    ]);
    let (version, distribution) = document_root(&root, "", "a version 4 document").unwrap();
    assert_eq!(*version, text("4.0.0"));
    assert_eq!(*distribution, obj(vec![("Library", obj(vec![]))]));
}

#[test]
fn a_document_root_that_is_not_an_object_is_an_invalid_type() {
    let d = document_root(&JsonValue::Array(vec![]), "", "a version 4 document").unwrap_err();
    assert_eq!(d.code, DiagnosticCode::InvalidType);
    assert_eq!(d.message, "a version 4 document must be an object");
}

#[test]
fn a_document_root_refuses_another_member_at_its_own_cursor() {
    let root = obj(vec![
        ("formatVersion", text("4.0.0")),
        ("$meta", obj(vec![])),
        ("distribution", obj(vec![])),
    ]);
    let d = document_root(&root, "", "a version 4 document").unwrap_err();
    assert_eq!(d.code, DiagnosticCode::UnknownMember);
    assert_eq!(d.cursor, "/$meta");
    assert_eq!(d.message, "unexpected member $meta");
}

#[test]
fn a_document_root_without_a_format_version_or_distribution_is_refused() {
    let d = document_root(&obj(vec![("distribution", obj(vec![]))]), "/doc", "a document").unwrap_err();
    assert_eq!(d.code, DiagnosticCode::MissingFormatVersion);
    assert_eq!(d.cursor, "/doc");
    assert_eq!(d.message, "the root object is missing formatVersion");
    let d = document_root(&obj(vec![("formatVersion", text("4"))]), "/doc", "a document").unwrap_err();
    assert_eq!(d.code, DiagnosticCode::MissingMember);
    assert_eq!(d.message, "missing member distribution");
}
