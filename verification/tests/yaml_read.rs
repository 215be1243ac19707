use morphir_core::ir::diagnostic::{DiagnosticCode, DiagnosticStage};
use morphir_core::ir::yaml::read::{check_directives, events_balanced, mark_of, read, read_events, Reader, YamlEvent};
use morphir_core::json::JsonValue;

fn text(s: &str) -> JsonValue {
    JsonValue::Str(s.to_string())
}

fn num(s: &str) -> JsonValue {
    JsonValue::Number(s.to_string())
}

#[test]
fn a_mapping_reads_into_members_in_document_order() {
    let v = read("b: 1\na: [x, true, ~, 'q']\n").unwrap();
    assert_eq!(
        v,
        JsonValue::Object(vec![
            ("b".to_string(), num("1")),
            (
                "a".to_string(),
                JsonValue::Array(vec![text("x"), JsonValue::Bool(true), JsonValue::Null, text("q")])
            ),
        ])
    );
}

#[test]
fn numbers_keep_their_lexeme() {
    assert_eq!(read("1e400").unwrap(), num("1e400"));
    assert_eq!(read("+7").unwrap(), num("7"));
    assert_eq!(read("2.e3").unwrap(), num("2.0e3"));
    assert_eq!(read("'7'").unwrap(), text("7"));
}

#[test]
fn a_repeated_member_is_refused_at_its_cursor() {
    let d = read("a:\n  b: 1\n  b: 2\n").unwrap_err();
    assert_eq!(d.code, DiagnosticCode::DuplicateMember);
    assert_eq!(d.stage, DiagnosticStage::Syntax);
    assert_eq!(d.cursor, "/a/b");
    assert_eq!(d.message, "member \"b\" appears twice");
    assert_eq!(d.line, Some(3));
}

#[test]
fn keys_must_be_strings() {
    let d = read("1: x\n").unwrap_err();
    assert_eq!(d.code, DiagnosticCode::InvalidType);
    assert_eq!(d.message, "mapping keys must be strings");
    let d = read("? [a]\n: x\n").unwrap_err();
    assert_eq!(d.code, DiagnosticCode::InvalidType);
    assert_eq!(read("'1': x\n").unwrap(), JsonValue::Object(vec![("1".to_string(), text("x"))]));
}

#[test]
fn anchors_aliases_tags_and_merge_keys_are_refused() {
    let d = read("a: &x 1\nb: *x\n").unwrap_err();
    assert_eq!(d.code, DiagnosticCode::UnsupportedYamlFeature);
    assert_eq!(d.message, "anchors and aliases are not part of the profile");
    assert_eq!(d.cursor, "/a");
    let d = read("a: !!str 1\n").unwrap_err();
    assert_eq!(d.message, "tags are not part of the profile");
    let d = read("a:\n  <<: {b: 1}\n").unwrap_err();
    assert_eq!(d.message, "merge keys are not part of the profile");
    assert_eq!(d.cursor, "/a/<<");
    let d = read("- &s [1]\n").unwrap_err();
    assert_eq!(d.message, "anchors and tags are not part of the profile");
    assert_eq!(d.cursor, "/0");
}

#[test]
fn directives_and_second_documents_are_refused() {
    let d = read("%YAML 1.2\n---\na: 1\n").unwrap_err();
    assert_eq!(d.code, DiagnosticCode::UnsupportedYamlFeature);
    assert_eq!(d.message, "%YAML and %TAG directives are not part of the profile");
    assert_eq!(d.line, None);
    assert!(check_directives("\u{feff}%TAG ! tag:x,2000:\n--- 1\n").is_err());
    assert!(check_directives("# note\n  %x\n").is_ok());
    let d = read("a: 1\n---\nb: 2\n").unwrap_err();
    assert_eq!(d.code, DiagnosticCode::InvalidYaml);
    assert_eq!(d.message, "expected exactly one document");
    let d = read("").unwrap_err();
    assert_eq!(d.message, "expected exactly one document");
}

#[test]
fn refused_plain_scalars_carry_the_resolution_message() {
    let d = read("a: [1, 007]\n").unwrap_err();
    assert_eq!(d.code, DiagnosticCode::InvalidLiteral);
    assert_eq!(d.cursor, "/a/1");
    assert_eq!(d.message, "leading zeros are not part of the profile");
}

#[test]
fn a_parser_failure_is_reported_at_the_node_being_read() {
    let d = read("a: [1, 2\n").unwrap_err();
    assert_eq!(d.code, DiagnosticCode::InvalidYaml);
    assert!(d.line.is_some());
    assert!(d.column.is_some());
}

#[test]
fn nesting_past_the_bound_is_refused() {
    let deep = format!("{}{}", "[".repeat(1001), "]".repeat(1001));
    let d = read(&deep).unwrap_err();
    assert_eq!(d.code, DiagnosticCode::NestingTooDeep);
    assert_eq!(d.message, "nesting deeper than 1000 levels");
    let ok = format!("{}{}", "[".repeat(1000), "]".repeat(1000));
    assert!(read(&ok).is_ok());
}

#[test]
fn events_read_one_at_a_time() {
    let at = mark_of(0, 0);
    let r = Reader::new();
    let r = r.step(&YamlEvent::DocumentStart { has_version: false }, at).unwrap();
    let r = r.step(&YamlEvent::MappingStart { anchor: 0, tagged: false }, at).unwrap();
    assert_eq!(r.depth(), 1);
    let r = r
        .step(&YamlEvent::Scalar { text: "k".to_string(), plain: true, anchor: 0, tagged: false }, at)
        .unwrap();
    assert_eq!(r.cursor(), "/k");
    let r = r.step(&YamlEvent::SequenceStart { anchor: 0, tagged: false }, at).unwrap();
    assert_eq!(r.cursor(), "/k/0");
    let r = r.step(&YamlEvent::Alias, at);
    assert!(r.is_err());
}

#[test]
fn a_read_over_given_events() {
    let at = |l: usize, c: usize| (l, c);
    let (l, c) = at(1, 4);
    let events = vec![
        (YamlEvent::DocumentStart { has_version: false }, 1, 0),
        (YamlEvent::SequenceStart { anchor: 0, tagged: false }, 1, 0),
        (YamlEvent::Scalar { text: "x".to_string(), plain: false, anchor: 0, tagged: false }, l, c),
        (YamlEvent::SequenceEnd, 1, 5),
    ];
    assert!(events_balanced(&events));
    assert_eq!(read_events(&events, None).unwrap(), JsonValue::Array(vec![text("x")]));
    let d = read_events(&events[..2].to_vec(), Some(("broken".to_string(), 2, 3))).unwrap_err();
    assert_eq!(d.cursor, "/0");
    assert_eq!(d.message, "broken");
    assert_eq!((d.line, d.column), (Some(2), Some(4)));
    assert!(!events_balanced(&vec![(YamlEvent::MappingEnd, 0, 0)]));
}
