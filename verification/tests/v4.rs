use morphir_core::json::JsonValue;
use morphir_core::ir::diagnostic::DiagnosticCode;
use morphir_core::ir::v4::access::{Access, AccessControlled};
use morphir_core::ir::v4::attributes::TypeAttributes;
use morphir_core::ir::v4::distribution::EntryPointKind;
use morphir_core::ir::v4::legacy::{
    accept_member, legacy_table, take_warnings, with_spelling_mode, SpellingMode, SpellingScope,
};
use morphir_core::ir::v4::module::Documentation;
use morphir_core::ir::v4::package::type_to_specification;
use morphir_core::ir::v4::tree_files::{is_escaped_stem, DistributionKind};
use morphir_core::ir::v4::types::{
    ConstructorArg, ConstructorDefinition, Incompleteness, Type, TypeDefinition,
    TypeSpecification,
};
use morphir_core::naming::name::Name;
use morphir_core::naming::stem::truncate_stem;

#[test]
fn every_node_specific_legacy_row_has_a_distinct_legacy_spelling() {
    for (node, legacy, _canonical) in legacy_table() {
        assert_ne!(node, "", "empty node name is not allowed in the legacy table");
        assert_ne!(legacy, "", "empty legacy spelling is not allowed in the legacy table");
    }
}

#[test]
fn the_escaped_stem_grammar_accepts_what_the_escape_produces() {
    for stem in [
        "user",
        "user-_id",
        "_con",
        "aux_",
        "value-in-_usd",
        "customer-relati__44a101f8",
        "c__44a101f8",
        "a-_b",
        "sku1",
    ] {
        assert!(is_escaped_stem(stem), "{stem}");
    }
}

#[test]
fn the_escaped_stem_grammar_refuses_everything_else() {
    for stem in [
        "",
        "_",
        "Not A Stem",
        "User",
        "user-",
        "user--id",
        "user_id",
        "a__44A101F8",
        "a__44a101f8-c",
        "a__zzzzzzzz",
        "user id",
    ] {
        assert!(!is_escaped_stem(stem), "{stem}");
    }
}

#[test]
fn file_stems_and_their_truncations_are_escaped_stems() {
    for text in ["valueInUSD", "con", "orderBook", "customerRelationshipManagerRecord"] {
        let stem = Name::from(text).to_file_stem();
        assert!(is_escaped_stem(&stem), "{stem}");
        let cut = truncate_stem(&stem, 16).unwrap();
        assert!(is_escaped_stem(&cut), "{cut}");
    }
}

#[test]
fn test_variable_type() {
    let var: Type = Type::variable(TypeAttributes::default(), Name::from("a"));
    assert!(matches!(var, Type::Variable(_, _)));
}

#[test]
fn test_unit_type() {
    let unit: Type = Type::unit(TypeAttributes::default());
    assert!(matches!(unit, Type::Unit(_)));
}

#[test]
fn test_function_type() {
    let func: Type = Type::function(
        TypeAttributes::default(),
        Type::unit(TypeAttributes::default()),
        Type::unit(TypeAttributes::default()),
    );
    assert!(matches!(func, Type::Function(_, _, _)));
}

#[test]
fn a_type_reports_its_own_attributes() {
    let line = || JsonValue::Object(vec![("line".to_string(), JsonValue::Number("3".to_string()))]);
    let mut attrs = TypeAttributes::default();
    attrs.source = Some(line());
    assert!(!attrs.is_empty());
    let t = Type::variable(attrs, Name::from("a"));
    assert_eq!(t.attributes().source, Some(line()));
    assert!(TypeAttributes::default().is_empty());
    assert_eq!(*Type::unit(TypeAttributes::default()).attributes(), TypeAttributes::empty());
}

#[test]
fn access_tags_read_back_and_accept_the_shorthands() {
    for access in [Access::Public, Access::Private] {
        assert_eq!(Access::from_tag(access.tag()), Some(access));
    }
    assert_eq!(Access::Public.tag(), "Public");
    assert_eq!(Access::from_tag("pub"), Some(Access::Public));
    assert_eq!(Access::from_tag("public"), Some(Access::Public));
    assert_eq!(Access::from_tag("private"), Some(Access::Private));
    assert_eq!(Access::from_tag("PUBLIC"), None);
}

#[test]
fn entry_point_kinds_read_back_from_their_spelling() {
    let all = EntryPointKind::all();
    assert_eq!(all.len(), 5);
    for kind in all {
        assert_eq!(EntryPointKind::parse(kind.as_str()), Some(kind));
    }
    assert_eq!(EntryPointKind::Handler.as_str(), "handler");
    assert_eq!(EntryPointKind::parse("Main"), None);
}

#[test]
fn distribution_kinds_read_back_from_their_spelling() {
    for kind in [DistributionKind::Library, DistributionKind::Specs, DistributionKind::Application] {
        assert_eq!(DistributionKind::parse(kind.as_str()), Some(kind));
    }
    assert_eq!(DistributionKind::parse("library"), None);
}

#[test]
fn documentation_drops_one_trailing_carriage_return_per_line() {
    let doc = Documentation::new(vec!["first\r".to_string(), "second\r\r".to_string(), "".to_string()]);
    assert_eq!(doc.lines(), &["first".to_string(), "second\r".to_string(), "".to_string()]);
    let one = Documentation::from_line("An alias for unit.".to_string());
    assert_eq!(one.lines(), &["An alias for unit.".to_string()]);
}

fn constructor(name: &str, args: Vec<(&str, Type)>) -> ConstructorDefinition {
    ConstructorDefinition {
        name: Name::from(name),
        args: args
            .into_iter()
            .map(|(n, t)| ConstructorArg { name: Name::from(n), arg_type: t })
            .collect(),
    }
}

#[test]
fn an_alias_definition_specifies_as_the_same_alias() {
    let spec = type_to_specification(TypeDefinition::TypeAliasDefinition {
        type_params: vec![Name::from("a")],
        type_expr: Type::unit(TypeAttributes::default()),
    });
    match spec {
        TypeSpecification::TypeAliasSpecification { type_params, type_expr } => {
            assert_eq!(type_params, vec![Name::from("a")]);
            assert!(matches!(type_expr, Type::Unit(_)));
        }
        other => panic!("expected an alias specification, got {other:?}"),
    }
}

#[test]
fn a_custom_type_with_public_constructors_publishes_them() {
    let spec = type_to_specification(TypeDefinition::CustomTypeDefinition {
        type_params: vec![],
        constructors: AccessControlled {
            access: Access::Public,
            value: vec![
                constructor("circle", vec![("radius", Type::unit(TypeAttributes::default()))]),
                constructor("empty", vec![]),
            ],
        },
    });
    match spec {
        TypeSpecification::CustomTypeSpecification { type_params, constructors } => {
            assert!(type_params.is_empty());
            assert_eq!(constructors.len(), 2);
            assert_eq!(constructors[0].name, Name::from("circle"));
            assert_eq!(constructors[0].args.len(), 1);
            assert_eq!(constructors[0].args[0].name, Name::from("radius"));
            assert!(matches!(constructors[0].args[0].arg_type, Type::Unit(_)));
            assert_eq!(constructors[1].name, Name::from("empty"));
            assert!(constructors[1].args.is_empty());
        }
        other => panic!("expected a custom specification, got {other:?}"),
    }
}

#[test]
fn a_custom_type_with_private_constructors_becomes_opaque() {
    let spec = type_to_specification(TypeDefinition::CustomTypeDefinition {
        type_params: vec![Name::from("a")],
        constructors: AccessControlled {
            access: Access::Private,
            value: vec![constructor("secret", vec![])],
        },
    });
    match spec {
        TypeSpecification::OpaqueTypeSpecification { type_params } => {
            assert_eq!(type_params, vec![Name::from("a")]);
        }
        other => panic!("expected an opaque specification, got {other:?}"),
    }
}

#[test]
fn an_incomplete_type_becomes_opaque() {
    let spec = type_to_specification(TypeDefinition::IncompleteTypeDefinition {
        type_params: vec![],
        incompleteness: Incompleteness::Draft,
        partial_type_expr: Some(Type::unit(TypeAttributes::default())),
    });
    assert!(matches!(spec, TypeSpecification::OpaqueTypeSpecification { .. }));
}

#[test]
fn a_canonical_member_is_accepted_without_a_warning() {
    let mut scope = SpellingScope::outside();
    assert_eq!(accept_member(&mut scope, "Function", "parameterType", "/a"), Ok("parameterType"));
    assert_eq!(accept_member(&mut scope, "Variable", "attributes", "/a"), Ok("attributes"));
    assert!(take_warnings(&mut scope).is_empty());
}

#[test]
fn a_legacy_spelling_is_accepted_with_a_warning_in_the_current_window() {
    let (result, warnings) = with_spelling_mode(SpellingMode::Current, |mut scope| {
        let r = accept_member(&mut scope, "Function", "argumentType", "/types/x/arg");
        (r, scope)
    });
    assert_eq!(result, Ok("parameterType"));
    assert_eq!(warnings.len(), 1);
    assert_eq!(warnings[0].code, DiagnosticCode::LegacySpelling);
    assert_eq!(warnings[0].cursor, "/types/x/arg");
}

#[test]
fn a_legacy_spelling_is_refused_once_the_window_is_pinned() {
    let (result, warnings) = with_spelling_mode(SpellingMode::Pinned, |mut scope| {
        let r = accept_member(&mut scope, "IfThenElse", "thenBranch", "/v");
        (r, scope)
    });
    let diagnostic = result.unwrap_err();
    assert_eq!(diagnostic.code, DiagnosticCode::UnknownMember);
    assert_eq!(diagnostic.cursor, "/v");
    assert_eq!(diagnostic.message, "unexpected member thenBranch");
    assert!(warnings.is_empty());
}

#[test]
fn an_unknown_member_is_refused_at_its_cursor() {
    let mut scope = SpellingScope::outside();
    let diagnostic = accept_member(&mut scope, "Function", "bogus", "/x").unwrap_err();
    assert_eq!(diagnostic.code, DiagnosticCode::UnknownMember);
    assert_eq!(diagnostic.message, "unexpected member bogus");
    // A legacy spelling of another node is not a member of this one.
    assert!(accept_member(&mut scope, "Function", "thenBranch", "/x").is_err());
}

#[test]
fn warnings_outside_a_scope_are_dropped() {
    let mut scope = SpellingScope::outside();
    assert_eq!(scope.mode(), SpellingMode::Current);
    assert_eq!(accept_member(&mut scope, "Field", "fieldName", "/f"), Ok("name"));
    assert!(take_warnings(&mut scope).is_empty());
}
