use morphir_core::ir::v4::serde_v4::{serialize_pattern, serialize_value, TypeEncoding};
use morphir_core::ir::v4::attributes::{TypeAttributes, ValueAttributes};
use morphir_core::ir::v4::literal::{serialize_literal, FloatLiteral, Literal};
use morphir_core::ir::v4::pattern::Pattern;
use morphir_core::ir::v4::types::Type;
use morphir_core::ir::v4::value::{
    HoleReason, InputType, LetBinding, NativeHint, NativeInfo, RecordFieldEntry, Value, ValueBody,
    ValueDefinition,
};
use morphir_core::json::{write_canonical_json, JsonValue};
use morphir_core::naming::fqname::FQName;
use morphir_core::naming::name::Name;

fn json_text(v: &JsonValue) -> String {
    let mut out = Vec::new();
    write_canonical_json(v, &mut out);
    String::from_utf8(out).unwrap()
}

#[test]
fn test_literal_constructors() {
    assert_eq!(Literal::bool(true), Literal::Bool(true));
    assert_eq!(Literal::char('a'), Literal::Char('a'));
    assert_eq!(Literal::string("hello".to_string()), Literal::String("hello".to_string()));
    assert_eq!(Literal::integer(42), Literal::Integer(42));
    assert_eq!(
        Literal::Float(FloatLiteral { lexeme: "2.5".to_string() }),
        Literal::Float(FloatLiteral { lexeme: format!("{:?}", 2.5f64) })
    );
    assert_eq!(Literal::decimal("123.456".to_string()), Literal::Decimal("123.456".to_string()));
    let doc = || JsonValue::Object(vec![("a".to_string(), JsonValue::Number("1".to_string()))]);
    assert_eq!(Literal::document(doc()), Literal::Document(doc()));
}

#[test]
fn test_literal_clone() {
    let lit = Literal::String("test".to_string());
    let cloned = lit.duplicate();
    assert_eq!(lit, cloned);
}

#[test]
fn literals_serialize_with_their_payload_under_the_tag() {
    assert_eq!(json_text(&serialize_literal(&Literal::Integer(42))), r#"{"IntegerLiteral":42}"#);
    assert_eq!(
        json_text(&serialize_literal(&Literal::Integer(i64::MIN))),
        r#"{"IntegerLiteral":-9223372036854775808}"#
    );
    assert_eq!(json_text(&serialize_literal(&Literal::Char('a'))), r#"{"CharLiteral":"a"}"#);
    assert_eq!(json_text(&serialize_literal(&Literal::Bool(false))), r#"{"BoolLiteral":false}"#);
    assert_eq!(
        json_text(&serialize_literal(&Literal::Float(FloatLiteral { lexeme: "1.0e2".to_string() }))),
        r#"{"FloatLiteral":1.0e2}"#
    );
    assert_eq!(json_text(&serialize_literal(&Literal::Decimal("10.50".to_string()))), r#"{"DecimalLiteral":"10.50"}"#);
}

#[test]
fn test_literal_value() {
    let val: Value = Value::literal(ValueAttributes::default(), Literal::Integer(42));
    assert!(matches!(val, Value::Literal(_, Literal::Integer(42))));
}

#[test]
fn test_variable_value() {
    let val: Value = Value::variable(ValueAttributes::default(), Name::from("x"));
    assert!(matches!(val, Value::Variable(_, _)));
}

#[test]
fn test_unit_value() {
    let val: Value = Value::unit(ValueAttributes::default());
    assert!(matches!(val, Value::Unit(_)));
}

#[test]
fn test_tuple_value() {
    let val: Value = Value::tuple(
        ValueAttributes::default(),
        vec![Value::unit(ValueAttributes::default()), Value::unit(ValueAttributes::default())],
    );
    assert!(matches!(val, Value::Tuple(_, elements) if elements.len() == 2));
}

#[test]
fn test_lambda_value() {
    let val: Value = Value::lambda(
        ValueAttributes::default(),
        Pattern::wildcard(ValueAttributes::default()),
        Value::unit(ValueAttributes::default()),
    );
    assert!(matches!(val, Value::Lambda(_, _, _)));
}

#[test]
fn test_value_definition() {
    let def: ValueDefinition =
        ValueDefinition::new(vec![], Type::unit(TypeAttributes::default()), Value::unit(ValueAttributes::default()));
    assert!(matches!(def.body, ValueBody::Expression(_)));
}

#[test]
fn test_hole_value() {
    let val: Value = Value::Hole(
        ValueAttributes::default(),
        HoleReason::TypeMismatch { expected: "Int".to_string(), found: "String".to_string() },
        None,
    );
    assert!(matches!(val, Value::Hole(_, HoleReason::TypeMismatch { .. }, None)));
}

#[test]
fn test_native_value_definition() {
    let def: ValueDefinition = ValueDefinition::native(
        vec![],
        Type::unit(TypeAttributes::default()),
        NativeInfo::new(NativeHint::Arithmetic, Some("add operation".to_string())),
    );
    assert!(matches!(def.body, ValueBody::Native(_)));
}

#[test]
fn a_definition_keys_its_inputs_by_canonical_name() {
    let def = ValueDefinition::new(
        vec![InputType::new(Name::from("myArg"), ValueAttributes::default(), Type::unit(TypeAttributes::default()))],
        Type::unit(TypeAttributes::default()),
        Value::unit(ValueAttributes::default()),
    );
    assert_eq!(def.input_types.len(), 1);
    assert_eq!(def.input_types[0].0, "my-arg");
    assert!(def.input_types[0].1.type_attributes.is_some());
}

#[test]
fn test_hole_reason_wrapper_format() {
    let json = json_text(&HoleReason::Draft.serialize());
    assert!(json.contains("\"Draft\""));
    assert!(json.contains("{}"));
}

#[test]
fn test_hole_reason_with_target() {
    let reason = HoleReason::UnresolvedReference { target: FQName::from_canonical_string("my/pkg:mod#func").unwrap() };
    let json = json_text(&reason.serialize());
    assert!(json.contains("\"UnresolvedReference\""));
    assert!(json.contains("\"target\""));
    assert!(json.contains("my/pkg:mod#func"));
}

#[test]
fn test_serialize_pattern_wildcard() {
    let p = Pattern::WildcardPattern(ValueAttributes::default());
    let json = json_text(&serialize_pattern(&p, TypeEncoding::Expanded));
    assert!(json.contains("\"WildcardPattern\""));
}

#[test]
fn patterns_take_their_shortest_spelling_without_attributes() {
    let e = TypeEncoding::Expanded;
    let tuple = Pattern::TuplePattern(
        ValueAttributes::default(),
        vec![Pattern::wildcard(ValueAttributes::default()), Pattern::UnitPattern(ValueAttributes::default())],
    );
    assert_eq!(
        json_text(&serialize_pattern(&tuple, e)),
        r#"{"TuplePattern":[{"WildcardPattern":{}},{"UnitPattern":{}}]}"#
    );
    let lit = Pattern::LiteralPattern(ValueAttributes::default(), Literal::Integer(1));
    assert_eq!(json_text(&serialize_pattern(&lit, e)), r#"{"LiteralPattern":{"IntegerLiteral":1}}"#);
    let as_pattern = Pattern::AsPattern(
        ValueAttributes::default(),
        Box::new(Pattern::EmptyListPattern(ValueAttributes::default())),
        Name::from("xs"),
    );
    assert_eq!(
        json_text(&serialize_pattern(&as_pattern, e)),
        r#"{"AsPattern":{"name":"xs","pattern":{"EmptyListPattern":{}}}}"#
    );
    let ctor = Pattern::ConstructorPattern(
        ValueAttributes::default(),
        FQName::from_canonical_string("my/pkg:mod#just").unwrap(),
        vec![Pattern::wildcard(ValueAttributes::default())],
    );
    assert_eq!(
        json_text(&serialize_pattern(&ctor, e)),
        r#"{"ConstructorPattern":{"fqname":"my/pkg:mod#just","patterns":[{"WildcardPattern":{}}]}}"#
    );
}

fn unit() -> Value {
    Value::unit(ValueAttributes::default())
}

fn ser(v: &Value) -> Result<String, String> {
    serialize_value(v, TypeEncoding::Expanded).map(|j| json_text(&j))
}

#[test]
fn test_serialize_value_unit() {
    let json = ser(&unit()).unwrap();
    assert!(json.contains("\"Unit\""));
}

#[test]
fn values_take_their_shortest_spelling_without_attributes() {
    assert_eq!(ser(&Value::variable(ValueAttributes::default(), Name::from("x"))).unwrap(), r#"{"Variable":"x"}"#);
    assert_eq!(
        ser(&Value::Reference(ValueAttributes::default(), FQName::from_canonical_string("my/pkg:mod#f").unwrap())).unwrap(),
        r#"{"Reference":"my/pkg:mod#f"}"#
    );
    assert_eq!(
        ser(&Value::literal(ValueAttributes::default(), Literal::Integer(7))).unwrap(),
        r#"{"Literal":{"IntegerLiteral":7}}"#
    );
    assert_eq!(ser(&Value::list(ValueAttributes::default(), vec![unit()])).unwrap(), r#"{"List":[{"Unit":{}}]}"#);
    assert_eq!(
        ser(&Value::if_then_else(ValueAttributes::default(), unit(), unit(), unit())).unwrap(),
        r#"{"IfThenElse":{"condition":{"Unit":{}},"else":{"Unit":{}},"then":{"Unit":{}}}}"#
    );
}

#[test]
fn a_record_keeps_the_last_value_of_a_repeated_field() {
    let r = Value::record(
        ValueAttributes::default(),
        vec![
            RecordFieldEntry::new(Name::from("a"), unit()),
            RecordFieldEntry::new(Name::from("a"), Value::variable(ValueAttributes::default(), Name::from("y"))),
        ],
    );
    assert_eq!(ser(&r).unwrap(), r#"{"Record":{"fields":{"a":{"Variable":"y"}}}}"#);
}

#[test]
fn a_definition_needs_its_output_type_and_native_values_are_not_written() {
    let def = ValueDefinition {
        input_types: vec![],
        output_type: None,
        body: ValueBody::Expression(unit()),
    };
    let v = Value::LetRecursion(ValueAttributes::default(), vec![LetBinding::new(Name::from("f"), def)], Box::new(unit()));
    assert_eq!(ser(&v).unwrap_err(), "ExpressionBody requires outputType");
    let native = Value::Native(
        ValueAttributes::default(),
        FQName::from_canonical_string("my/pkg:mod#f").unwrap(),
        NativeInfo::new(NativeHint::Arithmetic, None),
    );
    assert_eq!(ser(&native).unwrap_err(), "a native value has no v4 spelling");
    let ok = ValueDefinition::new(vec![], Type::unit(TypeAttributes::default()), unit());
    let json = json_text(&ok.serialize(TypeEncoding::Expanded).unwrap());
    assert_eq!(json, r#"{"ExpressionBody":{"body":{"Unit":{}},"inputTypes":{},"outputType":{"Unit":{}}}}"#);
}

#[test]
fn test_native_hint_wrapper_format() {
    let json = json_text(&NativeHint::Arithmetic.serialize());
    assert!(json.contains("\"Arithmetic\""));
    assert!(json.contains("{}"));
}

#[test]
fn test_value_body_expression_wrapper() {
    let def = ValueDefinition::new(vec![], Type::unit(TypeAttributes::default()), unit());
    let json = json_text(&def.serialize(TypeEncoding::Expanded).unwrap());
    assert!(json.contains("\"ExpressionBody\""));
    assert!(json.contains("\"body\""));
}
