use morphir_core::ir::v4::access::{Access, AccessControlled};
use morphir_core::ir::v4::attributes::TypeAttributes;
use morphir_core::ir::v4::linked_metadata_scan::LinkedMetadataCarrier;
use morphir_core::ir::v4::types::{Field, Type, TypeSpecification};
use morphir_core::naming::name::Name;
use morphir_core::ir::v4::linked_metadata::{
    AssertionSelector, AssertionSourceRecord, AuthoredContext, AuthoredFacts, DocumentMeta,
    GraphSubject, MetadataScope, SourceClaim,
};
use morphir_core::json::JsonValue;

const VOCAB: &str = "morphir://ir/pkg/acme/metadata?format=4.0.0#/module/naming/value/";
const SUBJECT: &str = "morphir://ir/pkg/acme/metadata?format=4.0.0#/module/naming";

fn obj(members: Vec<(&str, JsonValue)>) -> JsonValue {
    JsonValue::Object(members.into_iter().map(|(k, v)| (k.to_string(), v)).collect())
}

fn text(s: &str) -> JsonValue {
    JsonValue::Str(s.to_string())
}

fn vocab(term: &str) -> String {
    format!("{VOCAB}{term}")
}

/// A context with a vocabulary and one node-link term, `replacement`.
fn context_value() -> JsonValue {
    obj(vec![
        ("@vocab", text(VOCAB)),
        (
            "replacement",
            obj(vec![("@id", text(&vocab("replacement"))), ("@type", text("@id"))]),
        ),
    ])
}

fn record(carrier: &str, subject: &str, predicate: &str, object: JsonValue) -> AssertionSourceRecord {
    AssertionSourceRecord {
        selector: AssertionSelector {
            carrier: carrier.to_string(),
            subject: subject.to_string(),
            predicate: predicate.to_string(),
            object,
        },
        sources: vec![SourceClaim::Document],
    }
}

/// A document graph with one subject that labels itself "Naming" and links a replacement.
fn meta_value() -> JsonValue {
    obj(vec![
        ("@context", context_value()),
        (
            "@graph",
            JsonValue::Array(vec![obj(vec![
                ("@id", text(SUBJECT)),
                ("label", text("Naming")),
                ("replacement", text(&vocab("other"))),
            ])]),
        ),
    ])
}

#[test]
fn an_inline_context_is_kept_as_authored_and_resolved() {
    let authored = context_value();
    let context = AuthoredContext::parse(context_value()).unwrap();
    assert_eq!(context.authored(), &authored);
    let expanded = context.effective().expand_key("label").unwrap();
    assert_eq!(expanded.uri().to_string(), vocab("label"));
}

#[test]
fn an_import_cannot_be_resolved_without_its_resource() {
    assert_eq!(
        AuthoredContext::parse(text("naming.jsonld")).unwrap_err(),
        "context resource unavailable: contexts/naming.jsonld"
    );
    assert_eq!(
        AuthoredContext::parse(JsonValue::Array(vec![text("naming.jsonld")])).unwrap_err(),
        "context resource unavailable: contexts/naming.jsonld"
    );
    assert_eq!(AuthoredContext::parse(text("naming.json")).unwrap_err(), "invalid context form");
    assert_eq!(
        AuthoredContext::parse(text("https://example.org/c.jsonld")).unwrap_err(),
        "remote context forbidden: https://example.org/c.jsonld"
    );
    assert_eq!(AuthoredContext::parse(JsonValue::Null).unwrap_err(), "invalid context form");
}

#[test]
fn facts_are_checked_against_their_own_scope() {
    let context = AuthoredContext::parse(context_value()).unwrap();
    assert_eq!(
        AuthoredFacts::parse(&text("x"), Some(&context)).unwrap_err(),
        "facts must be an object"
    );
    assert_eq!(
        AuthoredFacts::parse(&obj(vec![("label", text("x"))]), None).unwrap_err(),
        "unbound context key: label"
    );
    let facts = AuthoredFacts::parse(&obj(vec![("label", text("x"))]), Some(&context)).unwrap();
    assert_eq!(facts.properties().len(), 1);
    assert!(!facts.is_empty());
    assert!(AuthoredFacts::new().is_empty());
}

#[test]
fn node_link_facts_require_node_addresses() {
    let context = AuthoredContext::parse(context_value()).unwrap();
    assert_eq!(
        AuthoredFacts::parse(&obj(vec![("replacement", JsonValue::Bool(true))]), Some(&context))
            .unwrap_err(),
        "replacement requires a node URI string"
    );
    assert_eq!(
        AuthoredFacts::parse(
            &obj(vec![(
                "replacement",
                JsonValue::Array(vec![text(&vocab("a")), text("nowhere")])
            )]),
            Some(&context),
        )
        .unwrap_err(),
        "invalid node URI: wrong URI authority"
    );
    let links = obj(vec![(
        "replacement",
        JsonValue::Array(vec![text(&vocab("a")), text(&vocab("b"))]),
    )]);
    assert!(AuthoredFacts::parse(&links, Some(&context)).is_ok());
}

#[test]
fn a_metadata_scope_names_only_its_context_and_facts() {
    assert_eq!(
        MetadataScope::decode(&obj(vec![("other", JsonValue::Null)])).unwrap_err(),
        "unknown metadata member other"
    );
    assert_eq!(
        MetadataScope::decode(&JsonValue::Null).unwrap_err(),
        "metadata scope must be an object"
    );
    let scope = MetadataScope::decode(&obj(vec![
        ("@context", context_value()),
        ("facts", obj(vec![("label", text("x"))])),
    ]))
    .unwrap();
    assert!(!scope.is_empty());
    assert_eq!(scope.expand_key("label").unwrap().to_string(), vocab("label"));
    assert!(MetadataScope::default().is_empty());
    assert_eq!(
        MetadataScope::default().expand_key("label").unwrap_err(),
        "unbound context key: label"
    );
    let bare = MetadataScope::parse(None, None).unwrap();
    assert!(bare.is_empty());
}

#[test]
fn a_graph_subject_needs_a_node_address_and_keeps_its_other_members() {
    let context = AuthoredContext::parse(context_value()).unwrap();
    assert_eq!(
        GraphSubject::parse(&text("x"), Some(&context)).unwrap_err(),
        "@graph entries must be objects"
    );
    assert_eq!(
        GraphSubject::parse(&obj(vec![("label", text("x"))]), Some(&context)).unwrap_err(),
        "@graph entry requires a string @id"
    );
    assert_eq!(
        GraphSubject::parse(&obj(vec![("@id", text("nowhere"))]), Some(&context)).unwrap_err(),
        "invalid node URI: wrong URI authority"
    );
    let subject = GraphSubject::parse(
        &obj(vec![("@id", text(SUBJECT)), ("label", text("x"))]),
        Some(&context),
    )
    .unwrap();
    assert_eq!(subject.id(), SUBJECT);
    assert_eq!(subject.facts().properties().len(), 1);
    assert_eq!(subject.facts().properties()[0].0, "label");
}

#[test]
fn document_metadata_refuses_unknown_members_and_malformed_graphs() {
    assert_eq!(
        DocumentMeta::parse(&JsonValue::Null, Ok(vec![])).unwrap_err(),
        "$meta must be an object"
    );
    assert_eq!(
        DocumentMeta::parse(&obj(vec![("extra", JsonValue::Null)]), Ok(vec![])).unwrap_err(),
        "unknown $meta member extra"
    );
    assert_eq!(
        DocumentMeta::parse(&obj(vec![("@graph", text("x"))]), Ok(vec![])).unwrap_err(),
        "@graph must be an array"
    );
    assert_eq!(
        DocumentMeta::parse(&obj(vec![]), Err("bad records".to_string())).unwrap_err(),
        "bad records"
    );
    let empty = DocumentMeta::parse(&obj(vec![]), Ok(vec![])).unwrap();
    assert!(empty.context.is_none() && empty.graph.is_empty() && empty.assertion_sources.is_empty());
}

#[test]
fn a_source_record_must_select_an_authored_document_graph_assertion() {
    let label = vocab("label");
    let matching = || record("documentGraph", SUBJECT, &label, obj(vec![("@value", text("Naming"))]));
    let meta = DocumentMeta::parse(&meta_value(), Ok(vec![matching()])).unwrap();
    assert_eq!(meta.graph.len(), 1);
    assert_eq!(meta.graph[0].id(), SUBJECT);
    assert_eq!(meta.assertion_sources.len(), 1);

    let link = record(
        "documentGraph",
        SUBJECT,
        &vocab("replacement"),
        obj(vec![("@id", text(&vocab("other")))]),
    );
    assert!(DocumentMeta::parse(&meta_value(), Ok(vec![link])).is_ok());

    let mut unsourced = matching();
    unsourced.sources.clear();
    assert_eq!(
        DocumentMeta::parse(&meta_value(), Ok(vec![unsourced])).unwrap_err(),
        "assertionSources entries require at least one source"
    );
    let node_carrier = record("attributesFacts", SUBJECT, &label, obj(vec![("@value", text("Naming"))]));
    assert_eq!(
        DocumentMeta::parse(&meta_value(), Ok(vec![node_carrier])).unwrap_err(),
        "node-carrier assertion source selectors require owner resolution"
    );
    let shapeless = record("documentGraph", SUBJECT, &label, obj(vec![("@language", text("en"))]));
    assert_eq!(
        DocumentMeta::parse(&meta_value(), Ok(vec![shapeless])).unwrap_err(),
        "selector object must be @value or @id"
    );
    let numeric_id = record("documentGraph", SUBJECT, &label, obj(vec![("@id", JsonValue::Null)]));
    assert_eq!(
        DocumentMeta::parse(&meta_value(), Ok(vec![numeric_id])).unwrap_err(),
        "selector @id must be a string"
    );
    assert_eq!(
        DocumentMeta::parse(&meta_value(), Ok(vec![matching(), matching()])).unwrap_err(),
        "duplicate assertion source selector"
    );
    let other_value = record("documentGraph", SUBJECT, &label, obj(vec![("@value", text("Other"))]));
    assert_eq!(
        DocumentMeta::parse(&meta_value(), Ok(vec![other_value])).unwrap_err(),
        "assertion source selector has no matching document-graph assertion"
    );
    let wrong_term = record("documentGraph", SUBJECT, &label, obj(vec![("@id", text(&vocab("x")))]));
    assert_eq!(
        DocumentMeta::parse(&meta_value(), Ok(vec![wrong_term])).unwrap_err(),
        "assertion source selector has no matching document-graph assertion"
    );
}

#[test]
fn a_type_contains_linked_metadata_when_any_nested_node_carries_a_scope() {
    let scoped = || {
        let mut attrs = TypeAttributes::default();
        attrs.metadata = MetadataScope::decode(&obj(vec![
            ("@context", context_value()),
            ("facts", obj(vec![("label", text("x"))])),
        ]))
        .unwrap();
        attrs
    };
    let plain_var = |n: &str| Type::variable(TypeAttributes::default(), Name::from(n));
    assert!(!plain_var("a").contains_linked_metadata());
    let nested = Type::function(
        TypeAttributes::default(),
        plain_var("a"),
        Type::record(
            TypeAttributes::default(),
            vec![Field::new(Name::from("f"), Type::variable(scoped(), Name::from("b")))],
        ),
    );
    assert!(nested.contains_linked_metadata());
    let alias = TypeSpecification::TypeAliasSpecification { type_params: vec![], type_expr: nested };
    assert!(alias.contains_linked_metadata());
    let opaque = TypeSpecification::OpaqueTypeSpecification { type_params: vec![] };
    assert!(!opaque.contains_linked_metadata());
    let wrapped = AccessControlled { access: Access::Public, value: Type::tuple(TypeAttributes::default(), vec![plain_var("a")]) };
    assert!(!wrapped.contains_linked_metadata());
}

#[test]
fn a_scope_read_back_from_its_inline_spelling_is_the_same_scope() {
    let context = AuthoredContext::parse(obj(vec![
        ("@vocab", text(VOCAB)),
        ("naming", obj(vec![("@id", text(VOCAB)), ("@prefix", JsonValue::Bool(true))])),
        ("alias", text("naming:aliases")),
        (
            "replacement",
            obj(vec![
                ("@id", text(&vocab("replacement"))),
                ("@type", text("@id")),
                ("@protected", JsonValue::Bool(true)),
            ]),
        ),
    ]))
    .unwrap();
    let inline = context.effective().to_inline_value();
    let again = AuthoredContext::parse(inline).unwrap();
    assert_eq!(again.effective(), context.effective());
}

#[test]
fn a_graph_subject_is_written_with_its_id_first() {
    let context = AuthoredContext::parse(context_value()).unwrap();
    let subject = GraphSubject::parse(
        &obj(vec![("label", text("x")), ("@id", text(SUBJECT))]),
        Some(&context),
    )
    .unwrap();
    assert_eq!(subject.to_json(), obj(vec![("@id", text(SUBJECT)), ("label", text("x"))]));
    let scope = MetadataScope::decode(&obj(vec![("facts", obj(vec![]))])).unwrap();
    assert_eq!(scope.to_json(), obj(vec![]));
}
