use morphir_core::ir::v4::access::{Access, AccessControlled};
use morphir_core::ir::v4::attributes::{TypeAttributes, ValueAttributes};
use morphir_core::ir::v4::module::{Documentation, Documented, ModuleDefinition};
use morphir_core::ir::v4::package::PackageDefinition;
use morphir_core::ir::v4::types::{ConstructorDefinition, Incompleteness, Type, TypeDefinition, TypeSpecification};
use morphir_core::ir::v4::value::{Value, ValueBody, ValueDefinition};
use morphir_core::naming::name::Name;

fn unit_type() -> Type {
    Type::unit(TypeAttributes::default())
}

fn public<T>(value: T) -> AccessControlled<T> {
    AccessControlled { access: Access::Public, value }
}

fn private<T>(value: T) -> AccessControlled<T> {
    AccessControlled { access: Access::Private, value }
}

fn undocumented<T>(value: T) -> Documented<T> {
    Documented { doc: None, value }
}

fn unit_value_definition(output: Option<Type>) -> ValueDefinition {
    ValueDefinition { input_types: vec![], output_type: output, body: ValueBody::Expression(Value::unit(ValueAttributes::default())) }
}

fn sample_package() -> PackageDefinition {
    let module = ModuleDefinition {
        types: vec![
            (
                "OpaqueFromPrivateConstructors".to_string(),
                public(undocumented(TypeDefinition::CustomTypeDefinition {
                    type_params: vec![],
                    constructors: private(vec![ConstructorDefinition { name: Name::from("secret"), args: vec![] }]),
                })),
            ),
            (
                "PrivateType".to_string(),
                private(undocumented(TypeDefinition::TypeAliasDefinition { type_params: vec![], type_expr: unit_type() })),
            ),
            (
                "Incomplete".to_string(),
                public(undocumented(TypeDefinition::IncompleteTypeDefinition {
                    type_params: vec![],
                    incompleteness: Incompleteness::Draft,
                    partial_type_expr: None,
                })),
            ),
            (
                "PublicAlias".to_string(),
                public(Documented {
                    doc: Some(Documentation::from_line("An alias for unit.".to_string())),
                    value: TypeDefinition::TypeAliasDefinition { type_params: vec![], type_expr: unit_type() },
                }),
            ),
        ],
        values: vec![
            ("publicValue".to_string(), public(undocumented(unit_value_definition(Some(unit_type()))))),
            ("noOutputYet".to_string(), public(undocumented(unit_value_definition(None)))),
            ("privValue".to_string(), private(undocumented(unit_value_definition(Some(unit_type()))))),
        ],
        doc: None,
    };
    let hidden = ModuleDefinition { types: vec![], values: vec![], doc: None };
    PackageDefinition {
        modules: vec![("PublicModule".to_string(), public(module)), ("PrivateModule".to_string(), private(hidden))],
    }
}

#[test]
fn to_specification_pins_every_filtering_and_translation_rule() {
    let specification = sample_package().to_specification();
    assert_eq!(specification.modules.len(), 1);
    assert_eq!(specification.modules[0].0, "PublicModule");
    let module = &specification.modules[0].1;
    assert_eq!(
        module.types.iter().map(|(k, _)| k.as_str()).collect::<Vec<_>>(),
        vec!["OpaqueFromPrivateConstructors", "Incomplete", "PublicAlias"]
    );
    assert_eq!(module.values.iter().map(|(k, _)| k.as_str()).collect::<Vec<_>>(), vec!["publicValue"]);
    assert!(matches!(module.types[0].1.value, TypeSpecification::OpaqueTypeSpecification { .. }));
    assert!(matches!(module.types[1].1.value, TypeSpecification::OpaqueTypeSpecification { .. }));
    let alias = &module.types[2].1;
    assert_eq!(alias.doc.as_ref().map(|d| d.lines().join("\n")), Some("An alias for unit.".to_string()));
    assert!(matches!(alias.value, TypeSpecification::TypeAliasSpecification { .. }));
    assert!(!module.values.iter().any(|(k, _)| k == "noOutputYet" || k == "privValue"));
    assert!(matches!(module.values[0].1.value.output, Type::Unit(_)));
}
