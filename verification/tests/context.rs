use morphir_core::json::JsonValue;
use morphir_core::metadata::context::{
    is_context_envelope, is_valid_term_key, list_action, normalize_lexical_path, normalize_path,
    validate_stem, Coercion, ContextBase, ContextError, ContextResources, EffectiveContext,
    ImportState, ImportTarget, ListAction, ListItemKind, MemberValue, TermValue,
    MAX_CONTEXT_IMPORT_DEPTH,
};
use morphir_core::node_address::Sha256Digest;

const VOCAB: &str = "morphir://ir/pkg/acme/metadata?format=4.0.0#/module/naming/value/";

fn s(text: &str) -> TermValue {
    TermValue::Str(text.to_string())
}

fn obj(members: &[(&str, MemberValue)]) -> TermValue {
    TermValue::Object(members.iter().map(|(k, v)| (k.to_string(), v.clone())).collect())
}

fn ms(text: &str) -> MemberValue {
    MemberValue::Str(text.to_string())
}

fn inline(members: Vec<(&str, TermValue)>) -> Vec<(String, TermValue)> {
    members.into_iter().map(|(k, v)| (k.to_string(), v)).collect()
}

fn scope(members: Vec<(&str, TermValue)>) -> EffectiveContext {
    let mut c = EffectiveContext::new();
    c.apply_inline(&inline(members)).unwrap();
    c
}

#[test]
fn a_node_link_term_and_the_vocabulary_expand() {
    let c = scope(vec![
        ("@vocab", s(VOCAB)),
        (
            "replacement",
            obj(&[("@id", ms(&format!("{VOCAB}replacement"))), ("@type", ms("@id"))]),
        ),
    ]);
    assert_eq!(c.vocab(), Some(VOCAB));
    let replacement = c.expand_key("replacement").unwrap();
    assert_eq!(replacement.coercion(), Coercion::NodeId);
    assert_eq!(replacement.uri().to_string(), format!("{VOCAB}replacement"));
    let aliases = c.expand_key("aliases").unwrap();
    assert_eq!(aliases.coercion(), Coercion::Plain);
    assert_eq!(aliases.uri().to_string(), format!("{VOCAB}aliases"));
}

#[test]
fn a_prefix_expands_a_compact_key_and_a_full_address_expands_as_itself() {
    let c = scope(vec![
        ("naming", obj(&[("@id", ms(VOCAB)), ("@prefix", MemberValue::Bool(true))])),
        ("alias", s("naming:aliases")),
    ]);
    assert_eq!(c.expand_key("naming:label").unwrap().uri().to_string(), format!("{VOCAB}label"));
    assert_eq!(c.expand_key("alias").unwrap().uri().to_string(), format!("{VOCAB}aliases"));
    let full = format!("{VOCAB}direct");
    assert_eq!(c.expand_key(&full).unwrap().uri().to_string(), full);
    assert_eq!(c.terms().len(), 2);
    assert_eq!(c.terms()[0].0, "alias");
    assert_eq!(c.terms()[1].0, "naming");
}

#[test]
fn an_unbound_key_is_refused() {
    let c = EffectiveContext::new();
    assert_eq!(c.expand_key("aliases"), Err(ContextError::UnboundKey("aliases".to_string())));
    assert_eq!(
        ContextError::UnboundKey("aliases".to_string()).message(),
        "unbound context key: aliases"
    );
}

#[test]
fn a_json_term_keeps_its_coercion() {
    let c = scope(vec![(
        "payload",
        obj(&[("@id", ms(&format!("{VOCAB}payload"))), ("@type", ms("@json"))]),
    )]);
    assert_eq!(c.expand_key("payload").unwrap().coercion(), Coercion::Json);
}

#[test]
fn keywords_outside_the_subset_are_refused() {
    let mut c = EffectiveContext::new();
    assert_eq!(
        c.apply_inline(&inline(vec![("@base", s("x"))])),
        Err(ContextError::UnsupportedKeyword("@base".to_string()))
    );
    let mut c = EffectiveContext::new();
    assert_eq!(
        c.apply_inline(&inline(vec![("term", obj(&[("@id", ms(VOCAB)), ("@container", ms("@set"))]))])),
        Err(ContextError::UnsupportedKeyword("@container".to_string()))
    );
}

#[test]
fn malformed_definitions_are_invalid_forms() {
    for value in [
        obj(&[("@id", ms(VOCAB)), ("@prefix", MemberValue::Bool(false))]),
        obj(&[("@id", MemberValue::Bool(true))]),
        obj(&[("@id", ms(&format!("{VOCAB}x"))), ("@type", ms("@vocab"))]),
        obj(&[("@id", ms(&format!("{VOCAB}x"))), ("other", ms("y"))]),
        TermValue::Other,
    ] {
        let mut c = EffectiveContext::new();
        assert_eq!(c.install_binding("term", &value), Err(ContextError::InvalidForm));
    }
    let mut c = EffectiveContext::new();
    assert_eq!(c.install_binding("a:b:c", &s(VOCAB)), Err(ContextError::InvalidForm));
    assert!(!is_valid_term_key("has space") && !is_valid_term_key(":x") && is_valid_term_key("a:b"));
}

#[test]
fn a_target_that_is_not_a_declaration_address_is_refused() {
    let mut c = EffectiveContext::new();
    let module = "morphir://ir/pkg/acme/metadata?format=4.0.0#/module/naming";
    assert_eq!(
        c.install_binding("term", &s(module)),
        Err(ContextError::InvalidTarget(module.to_string()))
    );
    assert_eq!(
        c.install_binding("term", &s("unknown:thing")),
        Err(ContextError::InvalidTarget("unknown:thing".to_string()))
    );
    assert_eq!(validate_stem("no-slash"), Err(ContextError::InvalidTarget("no-slash".to_string())));
    assert_eq!(validate_stem(VOCAB), Ok(()));
}

#[test]
fn a_protected_term_cannot_be_redefined() {
    let mut c = scope(vec![(
        "label",
        obj(&[("@id", ms(&format!("{VOCAB}label"))), ("@protected", MemberValue::Bool(true))]),
    )]);
    assert_eq!(
        c.install_binding("label", &s(&format!("{VOCAB}other"))),
        Err(ContextError::ProtectedTermRedefinition("label".to_string()))
    );
    // Restating the same definition is not a redefinition.
    assert_eq!(
        c.install_binding(
            "label",
            &obj(&[("@id", ms(&format!("{VOCAB}label"))), ("@protected", MemberValue::Bool(true))])
        ),
        Ok(())
    );
    let import = scope(vec![("label", s(&format!("{VOCAB}other")))]);
    assert_eq!(
        c.apply_imports(&import),
        Err(ContextError::ProtectedTermRedefinition("label".to_string()))
    );
}

#[test]
fn imports_override_unprotected_terms_and_the_vocabulary() {
    let mut c = scope(vec![("label", s(&format!("{VOCAB}label"))), ("@vocab", s(VOCAB))]);
    let other_vocab = "morphir://ir/pkg/acme/other?format=4.0.0#/module/naming/value/";
    let import = scope(vec![("label", s(&format!("{other_vocab}label"))), ("@vocab", s(other_vocab))]);
    c.apply_imports(&import).unwrap();
    assert_eq!(c.vocab(), Some(other_vocab));
    assert_eq!(c.expand_key("label").unwrap().uri().to_string(), format!("{other_vocab}label"));
}

#[test]
fn sibling_imports_that_disagree_collide() {
    let mut gathered = scope(vec![("label", s(&format!("{VOCAB}label")))]);
    let same = scope(vec![("label", s(&format!("{VOCAB}label")))]);
    assert_eq!(gathered.merge_import(&same), Ok(()));
    let different = scope(vec![("label", s(&format!("{VOCAB}title")))]);
    assert_eq!(
        gathered.merge_import(&different),
        Err(ContextError::TermCollision("label".to_string()))
    );
    let mut a = scope(vec![("@vocab", s(VOCAB))]);
    let b = scope(vec![("@vocab", s("morphir://ir/pkg/acme/other?format=4.0.0#/module/naming/value/"))]);
    assert_eq!(a.merge_import(&b), Err(ContextError::VocabCollision));
}

#[test]
fn lexical_paths_normalize_without_a_filesystem() {
    assert_eq!(normalize_lexical_path("a/./b//c/../d").unwrap(), "a/b/d");
    assert_eq!(normalize_lexical_path("./").unwrap(), ".");
    assert_eq!(normalize_lexical_path("/x/../y").unwrap(), "/y");
    assert_eq!(normalize_lexical_path("a/../..").unwrap_err(), ContextError::PathEscape);
    assert_eq!(normalize_path("contexts/a/../b.jsonld", "contexts").unwrap(), "contexts/b.jsonld");
    assert_eq!(normalize_path("other/b.jsonld", "contexts").unwrap_err(), ContextError::PathEscape);
    assert_eq!(normalize_path("b.jsonld", ".").unwrap(), "b.jsonld");
    assert_eq!(normalize_path("/b.jsonld", ".").unwrap_err(), ContextError::PathEscape);
}

#[test]
fn import_references_resolve_against_their_base() {
    let resources = ContextResources::new("./contexts/");
    assert_eq!(resources.root(), "contexts");
    let t = resources.import_target("naming.jsonld", &ContextBase::Workspace).unwrap();
    assert_eq!(t, ImportTarget { identity: "contexts/naming.jsonld".to_string(), hashed: false });
    let t = resources.import_target("contexts/naming.jsonld", &ContextBase::Workspace).unwrap();
    assert_eq!(t.identity, "contexts/naming.jsonld");
    let base = ContextBase::Local("contexts/shared/base.jsonld".to_string());
    let t = resources.import_target("../naming.jsonld", &base).unwrap();
    assert_eq!(t.identity, "contexts/naming.jsonld");
    let digest = format!("morphir://context/sha256/{}", "a".repeat(64));
    let t = resources.import_target(&digest, &ContextBase::ContentAddressed).unwrap();
    assert_eq!(t, ImportTarget { identity: digest.clone(), hashed: true });
}

#[test]
fn import_references_outside_the_grammar_are_refused() {
    let resources = ContextResources::new("contexts");
    let cases = [
        ("https://example.com/c.jsonld", ContextError::RemoteForbidden("https://example.com/c.jsonld".to_string())),
        ("/etc/c.jsonld", ContextError::PathEscape),
        ("naming.json", ContextError::InvalidForm),
        ("../naming.jsonld", ContextError::PathEscape),
        ("morphir://context/sha256/ABC", ContextError::InvalidForm),
    ];
    for (reference, error) in cases {
        assert_eq!(resources.import_target(reference, &ContextBase::Workspace), Err(error), "{reference}");
    }
    assert_eq!(
        resources.import_target("naming.jsonld", &ContextBase::ContentAddressed),
        Err(ContextError::RelativeImportWithoutBase)
    );
}

#[test]
fn loading_checks_availability_trust_and_digest() {
    let mut resources = ContextResources::new("contexts");
    resources.insert_local("contexts/./naming.jsonld", b"{}".to_vec());
    let local = ImportTarget { identity: "contexts/naming.jsonld".to_string(), hashed: false };
    assert_eq!(resources.load(&local, "naming.jsonld").unwrap(), b"{}");
    let missing = ImportTarget { identity: "contexts/other.jsonld".to_string(), hashed: false };
    assert_eq!(
        resources.load(&missing, "other.jsonld"),
        Err(ContextError::ResourceUnavailable("contexts/other.jsonld".to_string()))
    );

    let bytes = b"{\"@context\":{}}".to_vec();
    let hex = Sha256Digest::from_bytes(&bytes).hex().to_string();
    let reference = format!("morphir://context/sha256/{hex}");
    let hashed = ImportTarget { identity: reference.clone(), hashed: true };
    resources.insert_verified(&reference, bytes.clone(), false);
    assert_eq!(resources.load(&hashed, &reference), Err(ContextError::ResourceUntrusted(reference.clone())));
    resources.insert_verified(&reference, bytes.clone(), true);
    assert_eq!(resources.load(&hashed, &reference).unwrap(), bytes.as_slice());
    resources.insert_verified(&reference, b"tampered".to_vec(), true);
    assert_eq!(resources.load(&hashed, &reference), Err(ContextError::DigestMismatch(reference.clone())));
}

#[test]
fn an_import_closure_refuses_cycles_repeats_and_depth() {
    let mut state = ImportState::new();
    assert_eq!(state.begin("a.jsonld"), Ok(()));
    state.enter("a.jsonld");
    assert_eq!(state.begin("a.jsonld"), Err(ContextError::ImportCycle("a.jsonld".to_string())));
    state.leave("a.jsonld");
    assert_eq!(state.begin("a.jsonld"), Err(ContextError::DuplicateImport("a.jsonld".to_string())));

    let mut deep = ImportState::new();
    for i in 0..MAX_CONTEXT_IMPORT_DEPTH {
        let name = format!("c{i}.jsonld");
        assert_eq!(deep.begin(&name), Ok(()));
        deep.enter(&name);
    }
    assert_eq!(deep.begin("last.jsonld"), Err(ContextError::ImportDepthExceeded(128)));
    assert_eq!(ContextError::ImportDepthExceeded(128).message(), "context import depth exceeds 128");
}

#[test]
fn a_context_array_lists_references_then_one_inline_object() {
    assert_eq!(list_action(0, 2, ListItemKind::Reference, false), Ok(ListAction::Import));
    assert_eq!(list_action(1, 2, ListItemKind::Inline, false), Ok(ListAction::Inline));
    assert_eq!(list_action(0, 1, ListItemKind::Inline, false), Err(ContextError::InvalidForm));
    assert_eq!(list_action(1, 3, ListItemKind::Inline, false), Err(ContextError::InvalidForm));
    assert_eq!(list_action(1, 2, ListItemKind::Other, false), Err(ContextError::InvalidForm));
    assert!(is_context_envelope(&["@context".to_string()]));
    assert!(!is_context_envelope(&["@context".to_string(), "x".to_string()]));
}

#[test]
fn normalizing_a_normalized_path_changes_nothing() {
    for path in ["a/./b//c/../d", "./", "/x/../y", "/", "", "contexts/", "../../"] {
        if let Ok(once) = normalize_lexical_path(path) {
            assert_eq!(normalize_lexical_path(&once).unwrap(), once, "{path}");
        }
    }
}

#[test]
fn a_scope_writes_itself_as_a_self_contained_inline_context() {
    let c = scope(vec![
        ("@vocab", s(VOCAB)),
        ("alias", s(&format!("{VOCAB}aliases"))),
        (
            "replacement",
            obj(&[
                ("@id", ms(&format!("{VOCAB}replacement"))),
                ("@type", ms("@id")),
                ("@protected", MemberValue::Bool(true)),
            ]),
        ),
    ]);
    let text = |v: &str| JsonValue::Str(v.to_string());
    assert_eq!(
        c.to_inline_value(),
        JsonValue::Object(vec![
            ("@vocab".to_string(), text(VOCAB)),
            ("alias".to_string(), text(&format!("{VOCAB}aliases"))),
            (
                "replacement".to_string(),
                JsonValue::Object(vec![
                    ("@id".to_string(), text(&format!("{VOCAB}replacement"))),
                    ("@protected".to_string(), JsonValue::Bool(true)),
                    ("@type".to_string(), text("@id")),
                ])
            ),
        ])
    );
    assert_eq!(EffectiveContext::new().to_inline_value(), JsonValue::Object(vec![]));
}

#[test]
fn a_binding_reports_its_flags() {
    let c = scope(vec![
        ("naming", obj(&[("@id", ms(VOCAB)), ("@prefix", MemberValue::Bool(true))])),
        (
            "replacement",
            obj(&[("@id", ms(&format!("{VOCAB}replacement"))), ("@protected", MemberValue::Bool(true))]),
        ),
    ]);
    let naming = c.binding("naming").unwrap();
    assert!(naming.is_prefix() && !naming.is_protected());
    assert_eq!(naming.target(), VOCAB);
    let replacement = c.binding("replacement").unwrap();
    assert!(!replacement.is_prefix() && replacement.is_protected());
    assert_eq!(replacement.coercion(), Coercion::Plain);
}
