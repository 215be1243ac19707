use morphir_core::ir::v4::access::{Access, AccessControlled};
use morphir_core::ir::v4::attributes::TypeAttributes;
use morphir_core::ir::v4::serde_v4::{serialize_type, TypeEncoding};
use morphir_core::ir::v4::types::{
    ConstructorArg, ConstructorArgSpec, ConstructorDefinition, ConstructorSpecification, Field,
    Incompleteness, Type, TypeDefinition, TypeSpecification,
};
use morphir_core::ir::v4::value::HoleReason;
use morphir_core::json::JsonValue;
use morphir_core::naming::fqname::FQName;
use morphir_core::naming::name::Name;

fn obj(members: Vec<(&str, JsonValue)>) -> JsonValue {
    JsonValue::Object(members.into_iter().map(|(k, v)| (k.to_string(), v)).collect())
}

fn text(s: &str) -> JsonValue {
    JsonValue::Str(s.to_string())
}

fn plain() -> TypeAttributes {
    TypeAttributes::default()
}

fn var(name: &str) -> Type {
    Type::variable(plain(), Name::from(name))
}

fn fq(s: &str) -> FQName {
    FQName::from_canonical_string(s).unwrap()
}

const LIST: &str = "my/pkg:my/mod#list";
const INT: &str = "my/pkg:my/mod#int";

#[test]
fn compact_types_take_their_shortest_spelling() {
    let e = TypeEncoding::Compact;
    assert_eq!(serialize_type(&var("a"), e), text("a"));
    assert_eq!(serialize_type(&Type::reference(plain(), fq(INT), vec![]), e), text(INT));
    assert_eq!(
        serialize_type(&Type::reference(plain(), fq(LIST), vec![var("a")]), e),
        obj(vec![("Reference", JsonValue::Array(vec![text(LIST), text("a")]))])
    );
    assert_eq!(
        serialize_type(&Type::tuple(plain(), vec![var("a"), var("b")]), e),
        obj(vec![("Tuple", JsonValue::Array(vec![text("a"), text("b")]))])
    );
    assert_eq!(serialize_type(&Type::unit(plain()), e), obj(vec![("Unit", obj(vec![]))]));
    assert_eq!(
        serialize_type(&Type::function(plain(), var("a"), var("b")), e),
        obj(vec![(
            "Function",
            obj(vec![("parameterType", text("a")), ("returnType", text("b"))])
        )])
    );
}

#[test]
fn expanded_types_always_take_the_wrapper() {
    let e = TypeEncoding::Expanded;
    assert_eq!(
        serialize_type(&var("a"), e),
        obj(vec![("Variable", obj(vec![("name", text("a"))]))])
    );
    assert_eq!(
        serialize_type(&Type::reference(plain(), fq(INT), vec![]), e),
        obj(vec![("Reference", obj(vec![("fqname", text(INT))]))])
    );
    assert_eq!(
        serialize_type(&Type::reference(plain(), fq(LIST), vec![var("a")]), e),
        obj(vec![(
            "Reference",
            obj(vec![
                ("fqname", text(LIST)),
                ("args", JsonValue::Array(vec![obj(vec![("Variable", obj(vec![("name", text("a"))]))])])),
            ])
        )])
    );
    assert_eq!(serialize_type(&Type::unit(plain()), e), obj(vec![("Unit", obj(vec![]))]));
}

#[test]
fn a_node_with_attributes_is_written_expanded_with_its_attributes_first() {
    let mut attrs = TypeAttributes::default();
    attrs.source = Some(obj(vec![("line", JsonValue::Number("3".to_string()))]));
    attrs.extensions = vec![("tool".to_string(), JsonValue::Bool(true))];
    let t = Type::variable(attrs, Name::from("a"));
    assert_eq!(
        serialize_type(&t, TypeEncoding::Compact),
        obj(vec![(
            "Variable",
            obj(vec![
                (
                    "attributes",
                    obj(vec![
                        ("source", obj(vec![("line", JsonValue::Number("3".to_string()))])),
                        ("extensions", obj(vec![("tool", JsonValue::Bool(true))])),
                    ])
                ),
                ("name", text("a")),
            ])
        )])
    );
}

#[test]
fn record_fields_are_keyed_by_name_in_declaration_order() {
    let record = Type::record(
        plain(),
        vec![
            Field::new(Name::from("b"), var("x")),
            Field::new(Name::from("a"), var("y")),
            Field::new(Name::from("b"), var("z")),
        ],
    );
    assert_eq!(
        serialize_type(&record, TypeEncoding::Compact),
        obj(vec![("Record", obj(vec![("fields", obj(vec![("b", text("z")), ("a", text("y"))]))]))])
    );
    let extensible = Type::extensible_record(plain(), Name::from("r"), vec![Field::new(Name::from("a"), var("y"))]);
    assert_eq!(
        serialize_type(&extensible, TypeEncoding::Expanded),
        obj(vec![(
            "ExtensibleRecord",
            obj(vec![
                ("variable", text("r")),
                ("fields", obj(vec![("a", obj(vec![("Variable", obj(vec![("name", text("y"))]))]))])),
            ])
        )])
    );
}

#[test]
fn type_specifications_are_written_under_their_tag() {
    let e = TypeEncoding::Compact;
    let opaque = TypeSpecification::OpaqueTypeSpecification { type_params: vec![] };
    assert_eq!(opaque.serialize(e), obj(vec![("OpaqueTypeSpecification", obj(vec![]))]));
    let alias = TypeSpecification::TypeAliasSpecification {
        type_params: vec![Name::from("a")],
        type_expr: var("a"),
    };
    assert_eq!(
        alias.serialize(e),
        obj(vec![(
            "TypeAliasSpecification",
            obj(vec![("typeParams", JsonValue::Array(vec![text("a")])), ("typeExp", text("a"))])
        )])
    );
    let custom = TypeSpecification::CustomTypeSpecification {
        type_params: vec![],
        constructors: vec![ConstructorSpecification {
            name: Name::from("just"),
            args: vec![ConstructorArgSpec { name: Name::from("value"), arg_type: var("a") }],
        }],
    };
    assert_eq!(
        custom.serialize(e),
        obj(vec![(
            "CustomTypeSpecification",
            obj(vec![
                ("typeParams", JsonValue::Array(vec![])),
                (
                    "constructors",
                    obj(vec![(
                        "just",
                        JsonValue::Array(vec![JsonValue::Array(vec![text("value"), text("a")])])
                    )])
                ),
            ])
        )])
    );
    let derived = TypeSpecification::DerivedTypeSpecification {
        type_params: vec![],
        base_type: Type::reference(plain(), fq(INT), vec![]),
        from_base_type: fq("my/pkg:my/mod#from-int"),
        to_base_type: fq("my/pkg:my/mod#to-int"),
    };
    assert_eq!(
        derived.serialize(e),
        obj(vec![(
            "DerivedTypeSpecification",
            obj(vec![
                ("typeParams", JsonValue::Array(vec![])),
                ("baseType", text(INT)),
                ("fromBaseType", text("my/pkg:my/mod#from-int")),
                ("toBaseType", text("my/pkg:my/mod#to-int")),
            ])
        )])
    );
}

#[test]
fn type_definitions_carry_access_and_incompleteness() {
    let e = TypeEncoding::Compact;
    let custom = TypeDefinition::CustomTypeDefinition {
        type_params: vec![Name::from("a")],
        constructors: AccessControlled {
            access: Access::Private,
            value: vec![ConstructorDefinition {
                name: Name::from("nothing"),
                args: vec![ConstructorArg { name: Name::from("x"), arg_type: var("a") }],
            }],
        },
    };
    assert_eq!(
        custom.serialize(e),
        obj(vec![(
            "CustomTypeDefinition",
            obj(vec![
                ("typeParams", JsonValue::Array(vec![text("a")])),
                ("access", text("Private")),
                (
                    "constructors",
                    obj(vec![("nothing", JsonValue::Array(vec![JsonValue::Array(vec![text("x"), text("a")])]))])
                ),
            ])
        )])
    );
    let hole = TypeDefinition::IncompleteTypeDefinition {
        type_params: vec![],
        incompleteness: Incompleteness::Hole(HoleReason::DeletedDuringRefactor { tx_id: "t1".to_string() }),
        partial_type_expr: Some(var("a")),
    };
    assert_eq!(
        hole.serialize(e),
        obj(vec![(
            "IncompleteTypeDefinition",
            obj(vec![
                ("typeParams", JsonValue::Array(vec![])),
                (
                    "incompleteness",
                    obj(vec![(
                        "Hole",
                        obj(vec![("reason", obj(vec![("DeletedDuringRefactor", obj(vec![("tx-id", text("t1"))]))]))])
                    )])
                ),
                ("partialTypeExp", text("a")),
            ])
        )])
    );
    let draft = TypeDefinition::IncompleteTypeDefinition {
        type_params: vec![],
        incompleteness: Incompleteness::Draft,
        partial_type_expr: None,
    };
    assert_eq!(
        draft.serialize(e),
        obj(vec![(
            "IncompleteTypeDefinition",
            obj(vec![
                ("typeParams", JsonValue::Array(vec![])),
                ("incompleteness", obj(vec![("Draft", obj(vec![]))])),
            ])
        )])
    );
    assert_eq!(
        HoleReason::UnresolvedReference { target: fq(INT) }.serialize(),
        obj(vec![("UnresolvedReference", obj(vec![("target", text(INT))]))])
    );
    assert_eq!(
        HoleReason::TypeMismatch { expected: "Int".to_string(), found: "String".to_string() }.serialize(),
        obj(vec![(
            "TypeMismatch",
            obj(vec![("expected", text("Int")), ("found", text("String"))])
        )])
    );
}

#[test]
fn test_serialize_type_variable() {
    let var = Type::variable(TypeAttributes::default(), Name::from("a"));
    let mut out = Vec::new();
    morphir_core::json::write_canonical_json(&serialize_type(&var, TypeEncoding::Expanded), &mut out);
    let json = String::from_utf8(out).unwrap();
    assert!(json.contains("\"Variable\""));
    assert!(json.contains("\"name\""));
}
