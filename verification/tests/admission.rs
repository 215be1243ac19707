use morphir_core::ir::v4::attributes::TypeAttributes;
use morphir_core::ir::v4::types::Type;
use morphir_core::metadata::admission::{
    json_member_path, target_root_matches, valid_language_id, validate_target_name_language_ids, AdmissionError, Interpretation, NodeTargetKind,
    ObjectDeclaration, PredicateClosure, PredicateDeclaration, SubjectRole,
};
use morphir_core::node_address::{NodeRoot, NodeUri};

const BASE: &str = "morphir://ir/pkg/acme/metadata?format=4.0.0#/module/naming/";

fn uri(tail: &str) -> NodeUri {
    NodeUri::parse(&format!("{BASE}{tail}")).unwrap()
}

fn unit() -> Type {
    Type::unit(TypeAttributes::default())
}

fn value_predicate(name: &str, object: ObjectDeclaration) -> PredicateDeclaration {
    PredicateDeclaration::value(
        uri(&format!("value/{name}")),
        object,
        vec![SubjectRole::ValueDefinition],
        Interpretation::Descriptive,
    )
}

#[test]
fn a_closure_indexes_its_declarations_by_address() {
    let closure = PredicateClosure::new(vec![
        value_predicate("aliases", ObjectDeclaration::data(unit())),
        value_predicate("payload", ObjectDeclaration::json(uri("type/payload"), unit())),
    ])
    .unwrap();
    let found = closure.json_datatype(&uri("value/payload")).unwrap();
    assert_eq!(found.to_string(), format!("{BASE}type/payload"));
    assert!(closure.json_datatype(&uri("value/aliases")).is_none());
    assert!(closure.json_datatype(&uri("value/missing")).is_none());
}

#[test]
fn a_repeated_predicate_is_refused() {
    let result = PredicateClosure::new(vec![
        value_predicate("aliases", ObjectDeclaration::data(unit())),
        value_predicate("aliases", ObjectDeclaration::node(NodeTargetKind::Type)),
    ]);
    assert_eq!(result.unwrap_err(), AdmissionError::DuplicatePredicate);
}

#[test]
fn a_value_predicate_must_sit_at_a_bare_value_root() {
    let on_type = PredicateDeclaration::value(
        uri("type/aliases"),
        ObjectDeclaration::data(unit()),
        vec![SubjectRole::ValueDefinition],
        Interpretation::Descriptive,
    );
    assert_eq!(PredicateClosure::new(vec![on_type]).unwrap_err(), AdmissionError::InvalidDeclarationRole);
    let with_step = PredicateDeclaration::value(
        uri("value/aliases/body"),
        ObjectDeclaration::data(unit()),
        vec![SubjectRole::ValueDefinition],
        Interpretation::Descriptive,
    );
    assert_eq!(
        PredicateClosure::new(vec![with_step]).unwrap_err(),
        AdmissionError::InvalidDeclarationRole
    );
}

#[test]
fn a_json_datatype_must_name_a_type() {
    let d = value_predicate("payload", ObjectDeclaration::json(uri("value/other"), unit()));
    assert_eq!(
        PredicateClosure::new(vec![d]).unwrap_err(),
        AdmissionError::InvalidDatatypeDeclaration
    );
}

#[test]
fn a_predicate_must_allow_some_subject() {
    let d = PredicateDeclaration::value(
        uri("value/aliases"),
        ObjectDeclaration::data(unit()),
        vec![],
        Interpretation::Descriptive,
    );
    assert_eq!(PredicateClosure::new(vec![d]).unwrap_err(), AdmissionError::EmptySubjectRoles);
}

#[test]
fn a_sidecar_declaration_needs_a_type_root_and_a_json_object() {
    let ok = PredicateDeclaration::sidecar_type(
        uri("type/decorator"),
        ObjectDeclaration::json(uri("type/decorator"), unit()),
        vec![SubjectRole::TypeDefinition],
    );
    assert!(PredicateClosure::new(vec![ok]).is_ok());
    let not_json = PredicateDeclaration::sidecar_type(
        uri("type/decorator"),
        ObjectDeclaration::data(unit()),
        vec![SubjectRole::TypeDefinition],
    );
    assert_eq!(
        PredicateClosure::new(vec![not_json]).unwrap_err(),
        AdmissionError::InvalidDeclarationRole
    );
}

#[test]
fn the_first_refusal_is_the_one_reported() {
    let result = PredicateClosure::new(vec![
        value_predicate("a", ObjectDeclaration::data(unit())),
        value_predicate("a", ObjectDeclaration::data(unit())),
        PredicateDeclaration::value(
            uri("value/b"),
            ObjectDeclaration::data(unit()),
            vec![],
            Interpretation::Descriptive,
        ),
    ]);
    assert_eq!(result.unwrap_err(), AdmissionError::DuplicatePredicate);
}

#[test]
fn admission_errors_carry_their_message() {
    assert_eq!(
        AdmissionError::DuplicatePredicate.message(),
        "predicate closure contains a duplicate declaration"
    );
    assert_eq!(
        AdmissionError::InvalidLanguageId { path: "/names/0".to_string() }.message(),
        "invalid language ID at /names/0"
    );
}

#[test]
fn target_kinds_match_their_roots() {
    assert!(target_root_matches(NodeTargetKind::Package, &NodeRoot::Package));
    assert!(!target_root_matches(NodeTargetKind::Package, &NodeRoot::Distribution));
    let root = uri("type/money").root().clone();
    assert!(target_root_matches(NodeTargetKind::Type, &root));
    assert!(!target_root_matches(NodeTargetKind::Value, &root));
}

#[test]
fn language_ids_are_lowercase_words_joined_by_hyphens() {
    for id in ["en", "en-gb", "zh-hant-tw", "x1"] {
        assert!(valid_language_id(id), "{id}");
    }
    for id in ["", "EN", "en-", "-en", "en--gb", "1en", "en_gb"] {
        assert!(!valid_language_id(id), "{id}");
    }
}

fn names(items: &[&str]) -> Vec<String> {
    items.iter().map(|s| s.to_string()).collect()
}

#[test]
fn a_member_path_is_dotted_for_identifiers_and_quoted_otherwise() {
    assert_eq!(json_member_path("en"), ".en");
    assert_eq!(json_member_path("_x1"), "._x1");
    assert_eq!(json_member_path("en-gb"), "[\"en-gb\"]");
    assert_eq!(json_member_path("1x"), "[\"1x\"]");
    assert_eq!(json_member_path(""), "[\"\"]");
}

#[test]
fn language_maps_must_be_present_and_list_language_ids() {
    let good = names(&["en", "zh-hant"]);
    assert_eq!(validate_target_name_language_ids(Some(&good), Some(&good)), Ok(()));
    assert_eq!(
        validate_target_name_language_ids(None, Some(&good)),
        Err(AdmissionError::InterpreterInputMismatch)
    );
    assert_eq!(
        validate_target_name_language_ids(Some(&good), None),
        Err(AdmissionError::InterpreterInputMismatch)
    );
    let bad_front = names(&["en", "EN", "x y"]);
    assert_eq!(
        validate_target_name_language_ids(Some(&bad_front), None),
        Err(AdmissionError::InvalidLanguageId { path: "$.frontend.EN".to_string() })
    );
    let bad_back = names(&["zh hant"]);
    assert_eq!(
        validate_target_name_language_ids(Some(&good), Some(&bad_back)),
        Err(AdmissionError::InvalidLanguageId { path: "$.backend[\"zh hant\"]".to_string() })
    );
}
