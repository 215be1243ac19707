use morphir_core::json::{strip_nonsemantic, write_canonical_json, JsonValue};
use morphir_core::node_address::{NodeFingerprintBuilder, NodeStep};

fn obj(members: Vec<(&str, JsonValue)>) -> JsonValue {
    JsonValue::Object(members.into_iter().map(|(k, v)| (k.to_string(), v)).collect())
}

fn text(s: &str) -> JsonValue {
    JsonValue::Str(s.to_string())
}

fn num(s: &str) -> JsonValue {
    JsonValue::Number(s.to_string())
}

fn canonical(v: &JsonValue) -> String {
    let mut out = Vec::new();
    write_canonical_json(v, &mut out);
    String::from_utf8(out).unwrap()
}

#[test]
fn canonical_json_sorts_members_and_writes_no_white_space() {
    let v = obj(vec![
        ("b", num("1")),
        ("a", JsonValue::Array(vec![JsonValue::Bool(true), JsonValue::Null, text("x\"y")])),
        ("B", obj(vec![])),
    ]);
    assert_eq!(canonical(&v), r#"{"B":{},"a":[true,null,"x\"y"],"b":1}"#);
    assert_eq!(canonical(&JsonValue::Array(vec![])), "[]");
    assert_eq!(canonical(&num("-1.5e3")), "-1.5e3");
}

#[test]
fn stripping_removes_source_and_extensions_at_every_depth() {
    let node = obj(vec![(
        "Function",
        obj(vec![
            (
                "attributes",
                obj(vec![("source", num("3")), ("extensions", obj(vec![]))]),
            ),
            (
                "parameterType",
                obj(vec![(
                    "Variable",
                    obj(vec![
                        (
                            "attributes",
                            obj(vec![("source", num("1")), ("constraints", obj(vec![]))]),
                        ),
                        ("name", text("a")),
                    ]),
                )]),
            ),
        ]),
    )]);
    assert_eq!(
        canonical(&strip_nonsemantic(&node)),
        r#"{"Function":{"parameterType":{"Variable":{"attributes":{"constraints":{}},"name":"a"}}}}"#
    );
}

#[test]
fn a_document_literal_is_data_and_is_left_alone() {
    let node = obj(vec![
        ("DocumentLiteral", obj(vec![])),
        ("attributes", obj(vec![("source", num("1"))])),
    ]);
    assert_eq!(strip_nonsemantic(&node), node.duplicate());
}

#[test]
fn a_legacy_fingerprint_frames_the_stripped_canonical_child() {
    let child = obj(vec![
        ("Unit", obj(vec![("attributes", obj(vec![("source", num("7"))]))])),
    ]);
    let mut by_value = NodeFingerprintBuilder::new();
    by_value.push(&NodeStep::TupleElement(0), &child).unwrap();
    let mut by_bytes = NodeFingerprintBuilder::new();
    by_bytes.push_canonical(&NodeStep::TupleElement(0), br#"{"Unit":{}}"#).unwrap();
    assert_eq!(by_value.finish(), by_bytes.finish());

    let mut v41 = NodeFingerprintBuilder::for_v4_1();
    v41.push(&NodeStep::TupleElement(0), &child).unwrap();
    let mut expected = NodeFingerprintBuilder::for_v4_1();
    expected
        .push_canonical(&NodeStep::TupleElement(0), br#"{"Unit":{"attributes":{"source":7}}}"#)
        .unwrap();
    assert_eq!(v41.finish(), expected.finish());
}

#[test]
fn canonical_json_escapes_quotes_backslashes_and_control_characters() {
    let v = text("a\"b\\c\nd\te\u{1}f\u{1f}é");
    assert_eq!(canonical(&v), "\"a\\\"b\\\\c\\nd\\te\\u0001f\\u001fé\"");
}
