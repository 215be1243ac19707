use morphir_core::json::JsonValue;
use morphir_core::metadata::context::{ContextError, ContextResources, EffectiveContext};
use morphir_core::metadata::context_resolve::{inline_document_contexts, resolve_context, ParsedResources};

const VOCAB: &str = "morphir://ir/pkg/acme/metadata?format=4.0.0#/module/naming/value/";
const OTHER: &str = "morphir://ir/pkg/acme/other?format=4.0.0#/module/naming/value/";

fn text(s: &str) -> JsonValue {
    JsonValue::Str(s.to_string())
}

fn obj(members: Vec<(&str, JsonValue)>) -> JsonValue {
    JsonValue::Object(members.into_iter().map(|(k, v)| (k.to_string(), v)).collect())
}

fn envelope(ctx: JsonValue) -> JsonValue {
    obj(vec![("@context", ctx)])
}

/// Resources with `files` supplied under the root `contexts`, each parsed as given.
fn supplied(files: Vec<(&str, Option<JsonValue>)>) -> (ContextResources, ParsedResources) {
    let mut resources = ContextResources::new("contexts");
    let mut docs = ParsedResources::new();
    for (i, (path, doc)) in files.into_iter().enumerate() {
        let bytes = format!("resource {i}").into_bytes();
        resources.insert_local(path, bytes.clone());
        docs.insert(bytes, doc);
    }
    (resources, docs)
}

#[test]
fn an_inline_context_binds_its_vocabulary() {
    let (resources, docs) = supplied(vec![]);
    let c = resolve_context(None, &obj(vec![("@vocab", text(VOCAB))]), &resources, &docs, None).unwrap();
    assert_eq!(c.vocab(), Some(VOCAB));
}

#[test]
fn a_reference_imports_the_context_a_resource_carries() {
    let (resources, docs) =
        supplied(vec![("contexts/naming.jsonld", Some(envelope(obj(vec![("@vocab", text(VOCAB))]))))]);
    let c = resolve_context(None, &text("naming.jsonld"), &resources, &docs, None).unwrap();
    assert_eq!(c.vocab(), Some(VOCAB));
}

#[test]
fn an_array_imports_then_applies_its_inline_object() {
    let (resources, docs) =
        supplied(vec![("contexts/naming.jsonld", Some(envelope(obj(vec![("@vocab", text(VOCAB))]))))]);
    let authored = JsonValue::Array(vec![text("naming.jsonld"), obj(vec![("@vocab", text(OTHER))])]);
    let c = resolve_context(None, &authored, &resources, &docs, None).unwrap();
    assert_eq!(c.vocab(), Some(OTHER));
    let parent = resolve_context(None, &obj(vec![("@vocab", text(OTHER))]), &resources, &docs, None).unwrap();
    let c = resolve_context(Some(&parent), &JsonValue::Array(vec![text("naming.jsonld")]), &resources, &docs, None)
        .unwrap();
    assert_eq!(c.vocab(), Some(VOCAB));
    assert_eq!(parent.vocab(), Some(OTHER));
}

#[test]
fn malformed_forms_and_resources_are_refused() {
    let (resources, docs) = supplied(vec![
        ("contexts/bad.jsonld", None),
        ("contexts/bare.jsonld", Some(obj(vec![("@vocab", text(VOCAB))]))),
    ]);
    assert_eq!(
        resolve_context(None, &JsonValue::Array(vec![]), &resources, &docs, None),
        Err(ContextError::InvalidForm)
    );
    assert_eq!(resolve_context(None, &JsonValue::Null, &resources, &docs, None), Err(ContextError::InvalidForm));
    assert_eq!(
        resolve_context(None, &text("bad.jsonld"), &resources, &docs, None),
        Err(ContextError::InvalidResource("contexts/bad.jsonld".to_string()))
    );
    assert_eq!(
        resolve_context(None, &text("bare.jsonld"), &resources, &docs, None),
        Err(ContextError::InvalidResource("contexts/bare.jsonld".to_string()))
    );
    assert_eq!(
        resolve_context(None, &text("missing.jsonld"), &resources, &docs, None),
        Err(ContextError::ResourceUnavailable("contexts/missing.jsonld".to_string()))
    );
}

#[test]
fn import_cycles_and_repeats_are_refused() {
    let (resources, docs) = supplied(vec![
        ("contexts/a.jsonld", Some(envelope(text("b.jsonld")))),
        ("contexts/b.jsonld", Some(envelope(text("a.jsonld")))),
        ("contexts/c.jsonld", Some(envelope(obj(vec![("@vocab", text(VOCAB))])))),
    ]);
    assert_eq!(
        resolve_context(None, &text("a.jsonld"), &resources, &docs, None),
        Err(ContextError::ImportCycle("contexts/a.jsonld".to_string()))
    );
    let twice = JsonValue::Array(vec![text("c.jsonld"), text("c.jsonld")]);
    assert_eq!(
        resolve_context(None, &twice, &resources, &docs, None),
        Err(ContextError::DuplicateImport("contexts/c.jsonld".to_string()))
    );
    let empty = EffectiveContext::new();
    assert!(resolve_context(Some(&empty), &text("c.jsonld"), &resources, &docs, Some("contexts/x.jsonld")).is_ok());
}

#[test]
fn a_document_has_its_contexts_inlined_over_its_own_scope() {
    let (resources, docs) =
        supplied(vec![("contexts/naming.jsonld", Some(envelope(obj(vec![("@vocab", text(VOCAB))]))))]);
    let inline = resolve_context(None, &text("naming.jsonld"), &resources, &docs, None).unwrap().to_inline_value();
    let other_inline =
        resolve_context(None, &obj(vec![("@vocab", text(OTHER))]), &resources, &docs, None).unwrap().to_inline_value();
    let doc = obj(vec![
        ("$meta", obj(vec![("@context", text("naming.jsonld")), ("@graph", JsonValue::Array(vec![obj(vec![("@context", obj(vec![]))])]))])),
        (
            "types",
            obj(vec![(
                "t",
                obj(vec![("attributes", obj(vec![("@context", obj(vec![("@vocab", text(OTHER))]))]))]),
            )]),
        ),
        ("extensions", obj(vec![("attributes", obj(vec![("@context", text("missing.jsonld"))]))])),
    ]);
    let out = inline_document_contexts(&doc, &resources, &docs, None).unwrap();
    let meta = match &out {
        JsonValue::Object(ms) => &ms[0].1,
        _ => panic!("an object"),
    };
    match meta {
        JsonValue::Object(ms) => assert_eq!(ms[0].1, inline),
        _ => panic!("an object"),
    }
    let attrs = match &out {
        JsonValue::Object(ms) => match &ms[1].1 {
            JsonValue::Object(ts) => match &ts[0].1 {
                JsonValue::Object(t) => &t[0].1,
                _ => panic!("an object"),
            },
            _ => panic!("an object"),
        },
        _ => panic!("an object"),
    };
    match attrs {
        JsonValue::Object(a) => assert_eq!(a[0].1, other_inline),
        _ => panic!("an object"),
    }
    let bad = obj(vec![("x", obj(vec![("annotations", obj(vec![("@context", text("missing.jsonld"))]))]))]);
    assert_eq!(
        inline_document_contexts(&bad, &resources, &docs, None),
        Err(ContextError::ResourceUnavailable("contexts/missing.jsonld".to_string()))
    );
}
